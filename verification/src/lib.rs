//! Supervision of a host package manager's command-line tools.
//!
//! The package database may be locked by another process, and the tools report
//! their progress as unstructured lines of text. This library holds the
//! decisions that a driver needs to run them reliably:
//!
//! * [`lock`]: how long to wait for the lock, and what to tell the caller on
//!   every poll;
//! * [`lines`]: how the bytes of a non-blocking stream become complete lines;
//! * [`text`]: how bytes and characters become texts;
//! * [`event`]: which progress event, if any, a line stands for;
//! * [`reader`]: what one non-blocking read does to the pending output;
//! * [`supervisor`]: what to do next with a running child process, and how
//!   its end is classified;
//! * [`command`]: the programs, arguments and environments of the operations;
//! * [`status`]: which packages a status listing reports as installed.
//!
//! Nothing here touches a file, a process or a clock: a driver performs each
//! action that the library asks for and hands back what happened.
pub mod command;
pub mod event;
pub mod lines;
pub mod lock;
pub mod reader;
pub mod status;
pub mod supervisor;
pub mod text;

pub use command::{
    apt_autoremove, apt_cache, apt_hold, apt_install, apt_install_fix_broken, apt_noninteractive,
    apt_noninteractive_callback, apt_purge, apt_reinstall, apt_remove, apt_unhold, apt_update,
    apt_upgrade, dpkg_configure_all, Invocation, OutputMode,
};
pub use event::{decode, decode_lines, readiness_event, AptUpgradeEvent};
pub use lines::{OutputBuffer, LINE_FEED};
pub use lock::{
    lock_found, locks_found, LockWaiter, ProbeOutcome, ProbePolicy, WaitStep, APT_LOCK_ATTEMPTS,
    POLL_INTERVAL_MS,
};
pub use reader::{non_blocking_line_reading, ReadOutcome, ReadStatus, ReadStep};
pub use status::{installed, installed_query};
pub use supervisor::{
    classify_exit, Activity, ChildExit, CommandResult, Failure, Supervisor, SupervisorAction,
    SupervisorEvent, SupervisorState,
};
