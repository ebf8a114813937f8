//! The failure kinds shared by schema construction and dispatch.

use vstd::prelude::*;
use vstd::string::StringExecFns;

verus! {

/// A required schema field (`name`, a sub-parameter's `ord` or `type`) is absent.
#[derive(Clone, Copy, Debug, PartialEq, Eq, Structural)]
pub struct MissingInformationError;

impl MissingInformationError {
    /// A human-readable account of this failure.
    pub fn message(&self) -> String {
        String::from_str("Necessary information for Param missing!")
    }
}

/// An unrecognized type tag, a duplicate sub-parameter ordinal, or a malformed
/// schema root.
#[derive(Clone, Copy, Debug, PartialEq, Eq, Structural)]
pub struct WrongFormatError;

impl WrongFormatError {
    /// A human-readable account of this failure.
    pub fn message(&self) -> String {
        String::from_str("Wrong format for params!")
    }
}

/// More than one command was matched while the single-command policy is active.
#[derive(Clone, Copy, Debug, PartialEq, Eq, Structural)]
pub struct CommandModeError;

impl CommandModeError {
    /// A human-readable account of this failure.
    pub fn message(&self) -> String {
        String::from_str("Multiple commands entered, but single command mode configured!")
    }
}

/// A matched command has no handler bound to its name.
#[derive(Clone, Copy, Debug, PartialEq, Eq, Structural)]
pub struct NoEventError;

impl NoEventError {
    /// A human-readable account of this failure.
    pub fn message(&self) -> String {
        String::from_str("No event attached to this command!")
    }
}

/// A parse produced no matched command at all.
#[derive(Clone, Copy, Debug, PartialEq, Eq, Structural)]
pub struct UnknownCommandError;

impl UnknownCommandError {
    /// A human-readable account of this failure.
    pub fn message(&self) -> String {
        String::from_str("Could not find a known command in the statement")
    }
}

/// Every failure the library reports, as one discriminated union.
#[derive(Clone, Copy, Debug, PartialEq, Eq, Structural)]
pub enum ClitcError {
    MissingInformation(MissingInformationError),
    WrongFormat(WrongFormatError),
    CommandMode(CommandModeError),
    NoEvent(NoEventError),
    UnknownCommand(UnknownCommandError),
}

impl ClitcError {
    /// A human-readable account of this failure.
    pub fn message(&self) -> String {
        match self {
            ClitcError::MissingInformation(e) => e.message(),
            ClitcError::WrongFormat(e) => e.message(),
            ClitcError::CommandMode(e) => e.message(),
            ClitcError::NoEvent(e) => e.message(),
            ClitcError::UnknownCommand(e) => e.message(),
        }
    }
}

} // verus!
