//! The error types of the applications and the messages they show.
use vstd::prelude::*;

use crate::text::concat2;

verus! {

/// Errors of the archive tool.
#[derive(Debug)]
pub enum ArchiveError {
    Storage(String),
    AppRun(String),
    Operation(String),
}

impl ArchiveError {
    /// The message shown for this error.
    pub fn message(&self) -> (r: String)
        ensures
            r@ == match self {
                ArchiveError::Storage(s) => "Storage error: "@ + s@,
                ArchiveError::AppRun(s) => "App run error: "@ + s@,
                ArchiveError::Operation(s) => "Operation error: "@ + s@,
            },
    {
        match self {
            ArchiveError::Storage(s) => concat2("Storage error: ", s.as_str()),
            ArchiveError::AppRun(s) => concat2("App run error: ", s.as_str()),
            ArchiveError::Operation(s) => concat2("Operation error: ", s.as_str()),
        }
    }
}

/// Errors of the control center.
#[derive(Debug)]
pub enum ControlCenterError {
    AppRun(String),
}

impl ControlCenterError {
    /// The message shown for this error.
    pub fn message(&self) -> (r: String)
        ensures
            r@ == match self {
                ControlCenterError::AppRun(s) => "Control Center failed: "@ + s@,
            },
    {
        match self {
            ControlCenterError::AppRun(s) => concat2("Control Center failed: ", s.as_str()),
        }
    }
}

/// Errors of the file manager.
#[derive(Debug)]
pub enum FileManagerError {
    GtkInit(String),
    AppRun(String),
    Operation(String),
}

impl FileManagerError {
    /// The message shown for this error.
    pub fn message(&self) -> (r: String)
        ensures
            r@ == match self {
                FileManagerError::GtkInit(s) => "GTK init failed: "@ + s@,
                FileManagerError::AppRun(s) => "Application run failed: "@ + s@,
                FileManagerError::Operation(s) => "File operation failed: "@ + s@,
            },
    {
        match self {
            FileManagerError::GtkInit(s) => concat2("GTK init failed: ", s.as_str()),
            FileManagerError::AppRun(s) => concat2("Application run failed: ", s.as_str()),
            FileManagerError::Operation(s) => concat2("File operation failed: ", s.as_str()),
        }
    }
}

/// Errors of the notes application.
#[derive(Debug)]
pub enum NotesError {
    Storage(String),
    AppRun(String),
}

impl NotesError {
    /// The message shown for this error.
    pub fn message(&self) -> (r: String)
        ensures
            r@ == match self {
                NotesError::Storage(s) => "Notes storage error: "@ + s@,
                NotesError::AppRun(s) => "Notes app error: "@ + s@,
            },
    {
        match self {
            NotesError::Storage(s) => concat2("Notes storage error: ", s.as_str()),
            NotesError::AppRun(s) => concat2("Notes app error: ", s.as_str()),
        }
    }
}

/// Errors of the screenshot tool.
#[derive(Debug)]
pub enum ScreenshotError {
    Capture(String),
}

impl ScreenshotError {
    /// The message shown for this error: the capture failure itself.
    pub fn message(&self) -> (r: String)
        ensures
            r@ == match self {
                ScreenshotError::Capture(s) => s@,
            },
    {
        match self {
            ScreenshotError::Capture(s) => s.clone(),
        }
    }
}

} // verus!
