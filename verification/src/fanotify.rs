//! Values of the fanotify interface of Linux: its numbers, its flag sets, and
//! the events as they come out of a fanotify descriptor.

pub mod event;
pub mod flags;
pub mod sys;
