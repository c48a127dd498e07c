//! The flag sets of the fanotify calls, each as a record of booleans with its
//! integer form.

use vstd::prelude::*;
use crate::fanotify::sys;

verus! {

/// `mask` if `on`, else no bit.
pub open spec fn flag(on: bool, mask: i32) -> i32 {
    if on {
        mask
    } else {
        0
    }
}

/// The flags of `fanotify_init`.
#[derive(Clone, Copy, Debug, Default, PartialEq, Eq, Structural)]
pub struct InitFlags {
    /// `FAN_CLASS_PRE_CONTENT`
    pub pre_content: bool,
    /// `FAN_CLASS_CONTENT`
    pub content: bool,
    /// `FAN_CLASS_NOTIF`
    pub notif: bool,
    /// `FAN_CLOEXEC`
    pub cloexec: bool,
    /// `FAN_NONBLOCK`
    pub nonblock: bool,
    /// `FAN_UNLIMITED_QUEUE`
    pub unlimited_queue: bool,
    /// `FAN_UNLIMITED_MARKS`
    pub unlimited_marks: bool,
    /// `FAN_REPORT_TID`
    pub report_tid: bool,
    /// `FAN_ENABLE_AUDIT`
    pub enable_audit: bool,
    /// `FAN_REPORT_FID`
    pub report_fid: bool,
    /// `FAN_REPORT_DIR_FID`
    pub report_dir_fid: bool,
    /// `FAN_REPORT_DFID_NAME`
    pub report_dfid_name: bool,
    /// `FAN_REPORT_DFID_NAME_TARGET`
    pub report_dfid_name_target: bool,
    /// `FAN_REPORT_PIDFD`
    pub report_pidfd: bool,
}

impl InitFlags {
    /// The integer form: the bitwise or of the masks of the flags that are set.
    pub open spec fn bits(self) -> i32 {
        0i32 | flag(self.pre_content, sys::FAN_CLASS_PRE_CONTENT)
            | flag(self.content, sys::FAN_CLASS_CONTENT)
            | flag(self.notif, sys::FAN_CLASS_NOTIF)
            | flag(self.cloexec, sys::FAN_CLOEXEC)
            | flag(self.nonblock, sys::FAN_NONBLOCK)
            | flag(self.unlimited_queue, sys::FAN_UNLIMITED_QUEUE)
            | flag(self.unlimited_marks, sys::FAN_UNLIMITED_MARKS)
            | flag(self.report_tid, sys::FAN_REPORT_TID)
            | flag(self.enable_audit, sys::FAN_ENABLE_AUDIT)
            | flag(self.report_fid, sys::FAN_REPORT_FID)
            | flag(self.report_dir_fid, sys::FAN_REPORT_DIR_FID)
            | flag(self.report_dfid_name, sys::FAN_REPORT_DFID_NAME)
            | flag(self.report_dfid_name_target, sys::FAN_REPORT_DFID_NAME_TARGET)
            | flag(self.report_pidfd, sys::FAN_REPORT_PIDFD)
    }

    /// Converts the flags to their integer form.
    pub fn to_bits(&self) -> (bits: i32)
        ensures
            bits == self.bits(),
    {
        let mut flags: i32 = 0;
        flags = flags | if self.pre_content {
            sys::FAN_CLASS_PRE_CONTENT
        } else {
            0
        };
        flags = flags | if self.content {
            sys::FAN_CLASS_CONTENT
        } else {
            0
        };
        flags = flags | if self.notif {
            sys::FAN_CLASS_NOTIF
        } else {
            0
        };
        flags = flags | if self.cloexec {
            sys::FAN_CLOEXEC
        } else {
            0
        };
        flags = flags | if self.nonblock {
            sys::FAN_NONBLOCK
        } else {
            0
        };
        flags = flags | if self.unlimited_queue {
            sys::FAN_UNLIMITED_QUEUE
        } else {
            0
        };
        flags = flags | if self.unlimited_marks {
            sys::FAN_UNLIMITED_MARKS
        } else {
            0
        };
        flags = flags | if self.report_tid {
            sys::FAN_REPORT_TID
        } else {
            0
        };
        flags = flags | if self.enable_audit {
            sys::FAN_ENABLE_AUDIT
        } else {
            0
        };
        flags = flags | if self.report_fid {
            sys::FAN_REPORT_FID
        } else {
            0
        };
        flags = flags | if self.report_dir_fid {
            sys::FAN_REPORT_DIR_FID
        } else {
            0
        };
        flags = flags | if self.report_dfid_name {
            sys::FAN_REPORT_DFID_NAME
        } else {
            0
        };
        flags = flags | if self.report_dfid_name_target {
            sys::FAN_REPORT_DFID_NAME_TARGET
        } else {
            0
        };
        flags = flags | if self.report_pidfd {
            sys::FAN_REPORT_PIDFD
        } else {
            0
        };
        flags
    }
}

/// The flags with which the descriptors of events are opened.
#[derive(Clone, Copy, Debug, Default, PartialEq, Eq, Structural)]
pub struct EventFdFlags {
    /// `O_RDONLY`
    pub rdonly: bool,
    /// `O_WRONLY`
    pub wronly: bool,
    /// `O_RDWR`
    pub rdwr: bool,
    /// `O_LARGEFILE`
    pub largefile: bool,
    /// `O_CLOEXEC`
    pub cloexec: bool,
    /// `O_APPEND`
    pub append: bool,
    /// `O_DSYNC`
    pub dsync: bool,
    /// `O_NOATIME`
    pub noatime: bool,
    /// `O_NONBLOCK`
    pub nonblock: bool,
    /// `O_SYNC`
    pub sync: bool,
}

impl EventFdFlags {
    /// The integer form: the bitwise or of the masks of the flags that are set.
    pub open spec fn bits(self) -> i32 {
        0i32 | flag(self.rdonly, sys::O_RDONLY)
            | flag(self.wronly, sys::O_WRONLY)
            | flag(self.rdwr, sys::O_RDWR)
            | flag(self.largefile, sys::O_LARGEFILE)
            | flag(self.cloexec, sys::O_CLOEXEC)
            | flag(self.append, sys::O_APPEND)
            | flag(self.dsync, sys::O_DSYNC)
            | flag(self.noatime, sys::O_NOATIME)
            | flag(self.nonblock, sys::O_NONBLOCK)
            | flag(self.sync, sys::O_SYNC)
    }

    /// Converts the flags to their integer form.
    pub fn to_bits(&self) -> (bits: i32)
        ensures
            bits == self.bits(),
    {
        let mut flags: i32 = 0;
        flags = flags | if self.rdonly {
            sys::O_RDONLY
        } else {
            0
        };
        flags = flags | if self.wronly {
            sys::O_WRONLY
        } else {
            0
        };
        flags = flags | if self.rdwr {
            sys::O_RDWR
        } else {
            0
        };
        flags = flags | if self.largefile {
            sys::O_LARGEFILE
        } else {
            0
        };
        flags = flags | if self.cloexec {
            sys::O_CLOEXEC
        } else {
            0
        };
        flags = flags | if self.append {
            sys::O_APPEND
        } else {
            0
        };
        flags = flags | if self.dsync {
            sys::O_DSYNC
        } else {
            0
        };
        flags = flags | if self.noatime {
            sys::O_NOATIME
        } else {
            0
        };
        flags = flags | if self.nonblock {
            sys::O_NONBLOCK
        } else {
            0
        };
        flags = flags | if self.sync {
            sys::O_SYNC
        } else {
            0
        };
        flags
    }
}

/// The flags of `fanotify_mark`.
#[derive(Clone, Copy, Debug, Default, PartialEq, Eq, Structural)]
pub struct MarkFlags {
    /// `FAN_MARK_DONT_FOLLOW`
    pub dont_follow: bool,
    /// `FAN_MARK_ONLYDIR`
    pub onlydir: bool,
    /// `FAN_MARK_MOUNT`
    pub mount: bool,
    /// `FAN_MARK_FILESYSTEM`
    pub filesystem: bool,
    /// `FAN_MARK_IGNORED_MASK`
    pub ignored_mask: bool,
    /// `FAN_MARK_IGNORE`
    pub ignore: bool,
    /// `FAN_MARK_IGNORED_SURV_MODIFY`
    pub ignored_surv_modify: bool,
    /// `FAN_MARK_IGNORE_SURV`
    pub ignore_surv: bool,
    /// `FAN_MARK_EVICTABLE`
    pub evictable: bool,
}

impl MarkFlags {
    /// The integer form: the bitwise or of the masks of the flags that are set.
    pub open spec fn bits(self) -> i32 {
        0i32 | flag(self.dont_follow, sys::FAN_MARK_DONT_FOLLOW)
            | flag(self.onlydir, sys::FAN_MARK_ONLYDIR)
            | flag(self.mount, sys::FAN_MARK_MOUNT)
            | flag(self.filesystem, sys::FAN_MARK_FILESYSTEM)
            | flag(self.ignored_mask, sys::FAN_MARK_IGNORED_MASK)
            | flag(self.ignore, sys::FAN_MARK_IGNORE)
            | flag(self.ignored_surv_modify, sys::FAN_MARK_IGNORED_SURV_MODIFY)
            | flag(self.ignore_surv, sys::FAN_MARK_IGNORE_SURV)
            | flag(self.evictable, sys::FAN_MARK_EVICTABLE)
    }

    /// Converts the flags to their integer form.
    pub fn to_bits(&self) -> (bits: i32)
        ensures
            bits == self.bits(),
    {
        let mut flags: i32 = 0;
        flags = flags | if self.dont_follow {
            sys::FAN_MARK_DONT_FOLLOW
        } else {
            0
        };
        flags = flags | if self.onlydir {
            sys::FAN_MARK_ONLYDIR
        } else {
            0
        };
        flags = flags | if self.mount {
            sys::FAN_MARK_MOUNT
        } else {
            0
        };
        flags = flags | if self.filesystem {
            sys::FAN_MARK_FILESYSTEM
        } else {
            0
        };
        flags = flags | if self.ignored_mask {
            sys::FAN_MARK_IGNORED_MASK
        } else {
            0
        };
        flags = flags | if self.ignore {
            sys::FAN_MARK_IGNORE
        } else {
            0
        };
        flags = flags | if self.ignored_surv_modify {
            sys::FAN_MARK_IGNORED_SURV_MODIFY
        } else {
            0
        };
        flags = flags | if self.ignore_surv {
            sys::FAN_MARK_IGNORE_SURV
        } else {
            0
        };
        flags = flags | if self.evictable {
            sys::FAN_MARK_EVICTABLE
        } else {
            0
        };
        flags
    }

    /// The flags that an integer spells: a flag is set if the integer has a bit
    /// of its mask.
    pub open spec fn of_bits(flags: i32) -> Self {
        Self {
            dont_follow: flags & sys::FAN_MARK_DONT_FOLLOW != 0,
            onlydir: flags & sys::FAN_MARK_ONLYDIR != 0,
            mount: flags & sys::FAN_MARK_MOUNT != 0,
            filesystem: flags & sys::FAN_MARK_FILESYSTEM != 0,
            ignored_mask: flags & sys::FAN_MARK_IGNORED_MASK != 0,
            ignore: flags & sys::FAN_MARK_IGNORE != 0,
            ignored_surv_modify: flags & sys::FAN_MARK_IGNORED_SURV_MODIFY != 0,
            ignore_surv: flags & sys::FAN_MARK_IGNORE_SURV != 0,
            evictable: flags & sys::FAN_MARK_EVICTABLE != 0,
        }
    }

    /// Reads the flags off an integer.
    pub fn from_bits(flags: i32) -> (r: Self)
        ensures
            r == Self::of_bits(flags),
    {
        Self {
            dont_follow: (flags & sys::FAN_MARK_DONT_FOLLOW) != 0,
            onlydir: (flags & sys::FAN_MARK_ONLYDIR) != 0,
            mount: (flags & sys::FAN_MARK_MOUNT) != 0,
            filesystem: (flags & sys::FAN_MARK_FILESYSTEM) != 0,
            ignored_mask: (flags & sys::FAN_MARK_IGNORED_MASK) != 0,
            ignore: (flags & sys::FAN_MARK_IGNORE) != 0,
            ignored_surv_modify: (flags & sys::FAN_MARK_IGNORED_SURV_MODIFY) != 0,
            ignore_surv: (flags & sys::FAN_MARK_IGNORE_SURV) != 0,
            evictable: (flags & sys::FAN_MARK_EVICTABLE) != 0,
        }
    }
}

/// The events of a mark, and the events that an event reports.
#[derive(Clone, Copy, Debug, Default, PartialEq, Eq, Structural)]
pub struct EventFlags {
    /// `FAN_ACCESS`
    pub access: bool,
    /// `FAN_ACCESS_PERM`
    pub access_perm: bool,
    /// `FAN_ATTRIB`
    pub attrib: bool,
    /// `FAN_CLOSE`
    pub close: bool,
    /// `FAN_CLOSE_WRITE`
    pub close_write: bool,
    /// `FAN_CLOSE_NOWRITE`
    pub close_nowrite: bool,
    /// `FAN_CREATE`
    pub create: bool,
    /// `FAN_DELETE`
    pub delete: bool,
    /// `FAN_DELETE_SELF`
    pub delete_self: bool,
    /// `FAN_EVENT_ON_CHILD`
    pub event_on_child: bool,
    /// `FAN_FS_ERROR`
    pub fs_error: bool,
    /// `FAN_MODIFY`
    pub modify: bool,
    /// `FAN_MOVE_SELF`
    pub move_self: bool,
    /// `FAN_MOVE`
    pub moved: bool,
    /// `FAN_MOVED_FROM`
    pub moved_from: bool,
    /// `FAN_MOVED_TO`
    pub moved_to: bool,
    /// `FAN_ONDIR`
    pub ondir: bool,
    /// `FAN_OPEN`
    pub open: bool,
    /// `FAN_OPEN_EXEC`
    pub open_exec: bool,
    /// `FAN_OPEN_EXEC_PERM`
    pub open_exec_perm: bool,
    /// `FAN_OPEN_PERM`
    pub open_perm: bool,
    /// `FAN_Q_OVERFLOW`
    pub q_overflow: bool,
    /// `FAN_RENAME`
    pub rename: bool,
}

impl EventFlags {
    /// The integer form: the bitwise or of the masks of the flags that are set.
    pub open spec fn bits(self) -> i32 {
        0i32 | flag(self.access, sys::FAN_ACCESS)
            | flag(self.access_perm, sys::FAN_ACCESS_PERM)
            | flag(self.attrib, sys::FAN_ATTRIB)
            | flag(self.close, sys::FAN_CLOSE)
            | flag(self.close_write, sys::FAN_CLOSE_WRITE)
            | flag(self.close_nowrite, sys::FAN_CLOSE_NOWRITE)
            | flag(self.create, sys::FAN_CREATE)
            | flag(self.delete, sys::FAN_DELETE)
            | flag(self.delete_self, sys::FAN_DELETE_SELF)
            | flag(self.event_on_child, sys::FAN_EVENT_ON_CHILD)
            | flag(self.fs_error, sys::FAN_FS_ERROR)
            | flag(self.modify, sys::FAN_MODIFY)
            | flag(self.move_self, sys::FAN_MOVE_SELF)
            | flag(self.moved, sys::FAN_MOVE)
            | flag(self.moved_from, sys::FAN_MOVED_FROM)
            | flag(self.moved_to, sys::FAN_MOVED_TO)
            | flag(self.ondir, sys::FAN_ONDIR)
            | flag(self.open, sys::FAN_OPEN)
            | flag(self.open_exec, sys::FAN_OPEN_EXEC)
            | flag(self.open_exec_perm, sys::FAN_OPEN_EXEC_PERM)
            | flag(self.open_perm, sys::FAN_OPEN_PERM)
            | flag(self.q_overflow, sys::FAN_Q_OVERFLOW)
            | flag(self.rename, sys::FAN_RENAME)
    }

    /// Converts the flags to their integer form.
    pub fn to_bits(&self) -> (bits: i32)
        ensures
            bits == self.bits(),
    {
        let mut flags: i32 = 0;
        flags = flags | if self.access {
            sys::FAN_ACCESS
        } else {
            0
        };
        flags = flags | if self.access_perm {
            sys::FAN_ACCESS_PERM
        } else {
            0
        };
        flags = flags | if self.attrib {
            sys::FAN_ATTRIB
        } else {
            0
        };
        flags = flags | if self.close {
            sys::FAN_CLOSE
        } else {
            0
        };
        flags = flags | if self.close_write {
            sys::FAN_CLOSE_WRITE
        } else {
            0
        };
        flags = flags | if self.close_nowrite {
            sys::FAN_CLOSE_NOWRITE
        } else {
            0
        };
        flags = flags | if self.create {
            sys::FAN_CREATE
        } else {
            0
        };
        flags = flags | if self.delete {
            sys::FAN_DELETE
        } else {
            0
        };
        flags = flags | if self.delete_self {
            sys::FAN_DELETE_SELF
        } else {
            0
        };
        flags = flags | if self.event_on_child {
            sys::FAN_EVENT_ON_CHILD
        } else {
            0
        };
        flags = flags | if self.fs_error {
            sys::FAN_FS_ERROR
        } else {
            0
        };
        flags = flags | if self.modify {
            sys::FAN_MODIFY
        } else {
            0
        };
        flags = flags | if self.move_self {
            sys::FAN_MOVE_SELF
        } else {
            0
        };
        flags = flags | if self.moved {
            sys::FAN_MOVE
        } else {
            0
        };
        flags = flags | if self.moved_from {
            sys::FAN_MOVED_FROM
        } else {
            0
        };
        flags = flags | if self.moved_to {
            sys::FAN_MOVED_TO
        } else {
            0
        };
        flags = flags | if self.ondir {
            sys::FAN_ONDIR
        } else {
            0
        };
        flags = flags | if self.open {
            sys::FAN_OPEN
        } else {
            0
        };
        flags = flags | if self.open_exec {
            sys::FAN_OPEN_EXEC
        } else {
            0
        };
        flags = flags | if self.open_exec_perm {
            sys::FAN_OPEN_EXEC_PERM
        } else {
            0
        };
        flags = flags | if self.open_perm {
            sys::FAN_OPEN_PERM
        } else {
            0
        };
        flags = flags | if self.q_overflow {
            sys::FAN_Q_OVERFLOW
        } else {
            0
        };
        flags = flags | if self.rename {
            sys::FAN_RENAME
        } else {
            0
        };
        flags
    }

    /// The flags that an integer spells: a flag is set if the integer has a bit
    /// of its mask.
    pub open spec fn of_bits(flags: i32) -> Self {
        Self {
            access: flags & sys::FAN_ACCESS != 0,
            access_perm: flags & sys::FAN_ACCESS_PERM != 0,
            attrib: flags & sys::FAN_ATTRIB != 0,
            close: flags & sys::FAN_CLOSE != 0,
            close_write: flags & sys::FAN_CLOSE_WRITE != 0,
            close_nowrite: flags & sys::FAN_CLOSE_NOWRITE != 0,
            create: flags & sys::FAN_CREATE != 0,
            delete: flags & sys::FAN_DELETE != 0,
            delete_self: flags & sys::FAN_DELETE_SELF != 0,
            event_on_child: flags & sys::FAN_EVENT_ON_CHILD != 0,
            fs_error: flags & sys::FAN_FS_ERROR != 0,
            modify: flags & sys::FAN_MODIFY != 0,
            move_self: flags & sys::FAN_MOVE_SELF != 0,
            moved: flags & sys::FAN_MOVE != 0,
            moved_from: flags & sys::FAN_MOVED_FROM != 0,
            moved_to: flags & sys::FAN_MOVED_TO != 0,
            ondir: flags & sys::FAN_ONDIR != 0,
            open: flags & sys::FAN_OPEN != 0,
            open_exec: flags & sys::FAN_OPEN_EXEC != 0,
            open_exec_perm: flags & sys::FAN_OPEN_EXEC_PERM != 0,
            open_perm: flags & sys::FAN_OPEN_PERM != 0,
            q_overflow: flags & sys::FAN_Q_OVERFLOW != 0,
            rename: flags & sys::FAN_RENAME != 0,
        }
    }

    /// Reads the flags off an integer.
    pub fn from_bits(flags: i32) -> (r: Self)
        ensures
            r == Self::of_bits(flags),
    {
        Self {
            access: (flags & sys::FAN_ACCESS) != 0,
            access_perm: (flags & sys::FAN_ACCESS_PERM) != 0,
            attrib: (flags & sys::FAN_ATTRIB) != 0,
            close: (flags & sys::FAN_CLOSE) != 0,
            close_write: (flags & sys::FAN_CLOSE_WRITE) != 0,
            close_nowrite: (flags & sys::FAN_CLOSE_NOWRITE) != 0,
            create: (flags & sys::FAN_CREATE) != 0,
            delete: (flags & sys::FAN_DELETE) != 0,
            delete_self: (flags & sys::FAN_DELETE_SELF) != 0,
            event_on_child: (flags & sys::FAN_EVENT_ON_CHILD) != 0,
            fs_error: (flags & sys::FAN_FS_ERROR) != 0,
            modify: (flags & sys::FAN_MODIFY) != 0,
            move_self: (flags & sys::FAN_MOVE_SELF) != 0,
            moved: (flags & sys::FAN_MOVE) != 0,
            moved_from: (flags & sys::FAN_MOVED_FROM) != 0,
            moved_to: (flags & sys::FAN_MOVED_TO) != 0,
            ondir: (flags & sys::FAN_ONDIR) != 0,
            open: (flags & sys::FAN_OPEN) != 0,
            open_exec: (flags & sys::FAN_OPEN_EXEC) != 0,
            open_exec_perm: (flags & sys::FAN_OPEN_EXEC_PERM) != 0,
            open_perm: (flags & sys::FAN_OPEN_PERM) != 0,
            q_overflow: (flags & sys::FAN_Q_OVERFLOW) != 0,
            rename: (flags & sys::FAN_RENAME) != 0,
        }
    }
}

} // verus!
