//! The failures that the front ends report.
use vstd::prelude::*;
use vstd::string::StringExecFns;

verus! {

/// A failure of one of the front ends; the program prints its message and
/// exits with status 1.
#[derive(Debug, PartialEq, Eq)]
pub enum CliError {
    /// The `ssh` arguments name no destination.
    NoSshDestination,
    /// The `sftp` arguments name no destination.
    NoSftpDestination,
    /// The batch command read by `sftp` has fewer than three words.
    InvalidBatchCommand,
    /// The batch command read by `sftp` is not `put`; holds its first word.
    UnsupportedBatchCommand(String),
    /// The container description holds no `id=` line.
    ContainerIdNotFound,
}

/// The mathematical value of a [`CliError`].
pub enum CliErrorView {
    NoSshDestination,
    NoSftpDestination,
    InvalidBatchCommand,
    UnsupportedBatchCommand(Seq<char>),
    ContainerIdNotFound,
}

impl View for CliError {
    type V = CliErrorView;

    open spec fn view(&self) -> CliErrorView {
        match self {
            CliError::NoSshDestination => CliErrorView::NoSshDestination,
            CliError::NoSftpDestination => CliErrorView::NoSftpDestination,
            CliError::InvalidBatchCommand => CliErrorView::InvalidBatchCommand,
            CliError::UnsupportedBatchCommand(w) => CliErrorView::UnsupportedBatchCommand(w@),
            CliError::ContainerIdNotFound => CliErrorView::ContainerIdNotFound,
        }
    }
}

/// The text that is reported for an error.
pub open spec fn error_message(e: CliErrorView) -> Seq<char> {
    match e {
        CliErrorView::NoSshDestination => "ERROR: No destination specified for ssh command"@,
        CliErrorView::NoSftpDestination => "ERROR: No destination specified for sftp command"@,
        CliErrorView::InvalidBatchCommand => "Invalid batch command format"@,
        CliErrorView::UnsupportedBatchCommand(w) => "Unsupported batch command: "@ + w,
        CliErrorView::ContainerIdNotFound => "ID not found in /run/.containerenv"@,
    }
}

impl CliError {
    /// The text that is reported for this error.
    pub fn message(&self) -> (r: String)
        ensures
            r@ == error_message(self@),
    {
        match self {
            CliError::NoSshDestination => String::from_str(
                "ERROR: No destination specified for ssh command",
            ),
            CliError::NoSftpDestination => String::from_str(
                "ERROR: No destination specified for sftp command",
            ),
            CliError::InvalidBatchCommand => String::from_str("Invalid batch command format"),
            CliError::UnsupportedBatchCommand(w) => {
                let mut m = String::from_str("Unsupported batch command: ");
                m.append(w.as_str());
                m
            },
            CliError::ContainerIdNotFound => String::from_str("ID not found in /run/.containerenv"),
        }
    }
}

} // verus!
