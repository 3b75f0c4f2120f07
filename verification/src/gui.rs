//! What the update engine says to the user: the kinds of message boxes, the
//! answers they give, and the texts they show. The windows themselves are
//! the caller's.

use crate::text::append_text;
use vstd::prelude::*;
use vstd::string::StringExecFns;

verus! {

/// The kind of a message box.
#[derive(Clone, Copy, Debug, PartialEq, Eq, Structural)]
pub enum MessageBoxType {
    /// An error that the user can only acknowledge.
    Error,
    /// An error after which the user chooses to retry or to cancel.
    RetryCancel,
}

/// The button that closed a message box.
#[derive(Clone, Copy, Debug, PartialEq, Eq, Structural)]
pub enum MessageBoxResult {
    Unknown,
    Abort,
    Cancel,
    Continue,
    Ignore,
    No,
    OK,
    Retry,
    TryAgain,
    Yes,
}

/// The style bit that shows the error icon.
pub const MB_ICONERROR: u32 = 0x10;

/// The style bit that keeps the box above every window.
pub const MB_SYSTEMMODAL: u32 = 0x1000;

/// The style value that shows the buttons Retry and Cancel.
pub const MB_RETRYCANCEL: u32 = 0x5;

/// The style that the system is asked for: every box is an error box above
/// all windows, and the one that offers a retry has the two buttons for it.
pub open spec fn style_of(mbtype: MessageBoxType) -> u32 {
    match mbtype {
        MessageBoxType::Error => 0x1010,
        MessageBoxType::RetryCancel => 0x1015,
    }
}

/// The answer that the system's button code stands for.
pub open spec fn result_of(code: i32) -> MessageBoxResult {
    if code == 1 {
        MessageBoxResult::OK
    } else if code == 2 {
        MessageBoxResult::Cancel
    } else if code == 3 {
        MessageBoxResult::Abort
    } else if code == 4 {
        MessageBoxResult::Retry
    } else if code == 5 {
        MessageBoxResult::Ignore
    } else if code == 6 {
        MessageBoxResult::Yes
    } else if code == 7 {
        MessageBoxResult::No
    } else if code == 10 {
        MessageBoxResult::TryAgain
    } else if code == 11 {
        MessageBoxResult::Continue
    } else {
        MessageBoxResult::Unknown
    }
}

/// The style to ask the system for.
pub fn message_box_style(mbtype: MessageBoxType) -> (style: u32)
    ensures
        style == style_of(mbtype),
{
    match mbtype {
        MessageBoxType::Error => {
            assert(0x10u32 | 0x1000u32 == 0x1010u32) by (bit_vector);
            MB_ICONERROR | MB_SYSTEMMODAL
        },
        MessageBoxType::RetryCancel => {
            assert(0x5u32 | 0x10u32 | 0x1000u32 == 0x1015u32) by (bit_vector);
            MB_RETRYCANCEL | MB_ICONERROR | MB_SYSTEMMODAL
        },
    }
}

/// The answer that the system's button code stands for.
pub fn message_box_result(code: i32) -> (result: MessageBoxResult)
    ensures
        result == result_of(code),
{
    match code {
        1 => MessageBoxResult::OK,
        2 => MessageBoxResult::Cancel,
        3 => MessageBoxResult::Abort,
        4 => MessageBoxResult::Retry,
        5 => MessageBoxResult::Ignore,
        6 => MessageBoxResult::Yes,
        7 => MessageBoxResult::No,
        10 => MessageBoxResult::TryAgain,
        11 => MessageBoxResult::Continue,
        _ => MessageBoxResult::Unknown,
    }
}

/// What the user is told when the update has failed for good: that it has,
/// what may be the cause, and where the log is.
pub fn failure_message(log_path: &str) -> (msg: String)
    ensures
        msg@
            == "Failed to install Visual Studio Code update.\n\nUpdates may fail due to anti-virus software and/or runaway processes. Please try restarting your machine before attempting to update again.\n\nPlease read the log file for more information:\n\n"@
            + log_path@,
{
    append_text(
        "Failed to install Visual Studio Code update.\n\nUpdates may fail due to anti-virus software and/or runaway processes. Please try restarting your machine before attempting to update again.\n\nPlease read the log file for more information:\n\n",
        log_path,
    )
}

/// What the user is asked when every attempt at `task` has failed, the last
/// one with `error`.
pub fn retry_message(task: &str, error: &str) -> (msg: String)
    ensures
        msg@ == "There was an error while "@ + task@ + ":\n\n"@ + error@
            + "\n\nPlease verify there are no VS Code processes still executing."@,
{
    let mut msg = String::from_str("There was an error while ");
    msg.append(task);
    msg.append(":\n\n");
    msg.append(error);
    msg.append("\n\nPlease verify there are no VS Code processes still executing.");
    msg
}

} // verus!
