//! Decisions of the capture-control daemon, which starts and stops a packet
//! capture on one-byte commands from a local socket. The daemon performs
//! each decided action and hands the outcome back.

use vstd::prelude::*;

verus! {

/// A command byte of the control protocol.
#[derive(Clone, Copy, Debug, PartialEq, Eq, Structural)]
pub enum ControlCommand {
    /// `0x00`: start a capture; a little-endian `u32` filename length and the filename follow
    Start,
    /// `0x01`: stop the running capture
    Stop,
    /// `0x02`: stop any capture and shut the daemon down
    Shutdown,
    /// Any other byte; ignored
    Invalid(u8),
}

/// Why a command failed. After any of these the daemon stops a running
/// capture, replies with failure and closes the connection.
#[derive(Clone, Copy, Debug, PartialEq, Eq, Structural)]
pub enum ControlError {
    /// The announced filename is longer than `MAX_FILENAME_LENGTH`
    FilenameLength,
    /// The filename is not UTF-8
    FilenameParse,
    /// A capture is already running
    ExistingCapture,
    /// Stop was asked with no capture running
    NoCapture,
    /// Shutdown was asked
    Shutdown,
}

/// What the daemon does next for a command.
#[derive(Clone, Copy, Debug, PartialEq, Eq, Structural)]
pub enum ControlAction {
    /// Read the filename length and go on with `filename_length_step`
    ReadFilenameLength,
    /// Stop the running capture; the command succeeds
    StopCapture,
    /// Keep the state; the command succeeds
    Nothing,
    /// Stop any running capture; the command fails
    Fail(ControlError),
}

/// The longest filename that a start command may announce.
pub const MAX_FILENAME_LENGTH: u32 = 1024 * 1024;

/// Reply byte on success.
pub const REPLY_OK: u8 = 0x00;

/// Reply byte on failure.
pub const REPLY_FAILED: u8 = 0x01;

pub open spec fn command_of(code: u8) -> ControlCommand {
    if code == 0 {
        ControlCommand::Start
    } else if code == 1 {
        ControlCommand::Stop
    } else if code == 2 {
        ControlCommand::Shutdown
    } else {
        ControlCommand::Invalid(code)
    }
}

pub open spec fn command_action(command: ControlCommand, capture_running: bool) -> ControlAction {
    match command {
        ControlCommand::Start => ControlAction::ReadFilenameLength,
        ControlCommand::Stop => if capture_running {
            ControlAction::StopCapture
        } else {
            ControlAction::Fail(ControlError::NoCapture)
        },
        ControlCommand::Shutdown => ControlAction::Fail(ControlError::Shutdown),
        ControlCommand::Invalid(_) => ControlAction::Nothing,
    }
}

/// Decodes a command byte.
pub fn parse_command(code: u8) -> (r: ControlCommand)
    ensures
        r == command_of(code),
{
    if code == 0 {
        ControlCommand::Start
    } else if code == 1 {
        ControlCommand::Stop
    } else if code == 2 {
        ControlCommand::Shutdown
    } else {
        ControlCommand::Invalid(code)
    }
}

/// The first step of a command, given whether a capture is running.
pub fn command_step(command: ControlCommand, capture_running: bool) -> (r: ControlAction)
    ensures
        r == command_action(command, capture_running),
{
    match command {
        ControlCommand::Start => ControlAction::ReadFilenameLength,
        ControlCommand::Stop => {
            if capture_running {
                ControlAction::StopCapture
            } else {
                ControlAction::Fail(ControlError::NoCapture)
            }
        },
        ControlCommand::Shutdown => ControlAction::Fail(ControlError::Shutdown),
        ControlCommand::Invalid(_) => ControlAction::Nothing,
    }
}

/// After the filename length of a start command: the number of filename
/// bytes to read, or the error.
pub fn filename_length_step(length: u32) -> (r: Result<usize, ControlError>)
    ensures
        length <= MAX_FILENAME_LENGTH ==> r == Ok::<usize, ControlError>(length as usize),
        length > MAX_FILENAME_LENGTH ==> r == Err::<usize, ControlError>(ControlError::FilenameLength),
{
    if length > MAX_FILENAME_LENGTH {
        Err(ControlError::FilenameLength)
    } else {
        Ok(length as usize)
    }
}

/// After the filename of a start command: whether to start the capture.
pub fn filename_step(filename_is_utf8: bool, capture_running: bool) -> (r: Result<(), ControlError>)
    ensures
        !filename_is_utf8 ==> r == Err::<(), ControlError>(ControlError::FilenameParse),
        filename_is_utf8 && capture_running ==> r == Err::<(), ControlError>(
            ControlError::ExistingCapture,
        ),
        filename_is_utf8 && !capture_running ==> r is Ok,
{
    if !filename_is_utf8 {
        Err(ControlError::FilenameParse)
    } else if capture_running {
        Err(ControlError::ExistingCapture)
    } else {
        Ok(())
    }
}

/// The reply byte for a command's outcome.
pub fn reply_code(succeeded: bool) -> (r: u8)
    ensures
        r == if succeeded {
            REPLY_OK
        } else {
            REPLY_FAILED
        },
{
    if succeeded {
        REPLY_OK
    } else {
        REPLY_FAILED
    }
}

} // verus!
