//! Error types of the scan and check phases.
use vstd::prelude::*;

use crate::ops::types::{Reminder, ReminderModel};
use crate::text::{decimal, owned, push_decimal, push_str};

verus! {

/// An I/O error, carried through the library unread.
#[verifier::external_type_specification]
#[verifier::external_body]
pub struct ExIoError(std::io::Error);

/// Result of scanning files — contains both successes and errors.
/// A parse error in one file does not stop the scan.
pub struct ScanResult {
    pub reminders: Vec<Reminder>,
    pub errors: Vec<ScanError>,
}

/// Non-fatal errors during file scanning/parsing
#[derive(Debug)]
pub enum ScanError {
    Parse {
        file: String,
        line: usize,
        col: usize,
        message: String,
        span: std::ops::Range<usize>,
        source_line: String,
        expected: Vec<String>,
        found: Option<String>,
    },
    FileRead { path: String, source: std::io::Error },
    Walk { path: String, message: String },
}

/// Non-fatal errors during operation checking (per-operation, doesn't stop run)
#[derive(Debug, Clone)]
pub enum CheckError {
    ApiError { operation: String, message: String, status: Option<u16>, retryable: bool },
    RateLimited { forge: String, reset_at: String },
    AuthRequired { forge: String },
    Network { message: String },
}

/// Fatal errors that prevent the tool from running at all
#[derive(Debug)]
pub enum FatalError {
    Config { message: String },
    NoInput,
}

pub enum ScanErrorModel {
    Parse {
        file: Seq<char>,
        line: usize,
        col: usize,
        message: Seq<char>,
        span_start: usize,
        span_end: usize,
        source_line: Seq<char>,
        expected: Seq<Seq<char>>,
        found: Option<Seq<char>>,
    },
    FileRead { path: Seq<char> },
    Walk { path: Seq<char>, message: Seq<char> },
}

pub open spec fn opt_view(o: Option<String>) -> Option<Seq<char>> {
    match o {
        Some(s) => Some(s@),
        None => None,
    }
}

impl View for ScanError {
    type V = ScanErrorModel;

    open spec fn view(&self) -> ScanErrorModel {
        match self {
            ScanError::Parse {
                file,
                line,
                col,
                message,
                span,
                source_line,
                expected,
                found,
            } => ScanErrorModel::Parse {
                file: file@,
                line: *line,
                col: *col,
                message: message@,
                span_start: span.start,
                span_end: span.end,
                source_line: source_line@,
                expected: expected@.map_values(|e: String| e@),
                found: opt_view(*found),
            },
            ScanError::FileRead { path, .. } => ScanErrorModel::FileRead { path: path@ },
            ScanError::Walk { path, message } => ScanErrorModel::Walk {
                path: path@,
                message: message@,
            },
        }
    }
}

pub open spec fn reminder_views(v: Seq<Reminder>) -> Seq<ReminderModel> {
    v.map_values(|r: Reminder| r@)
}

pub open spec fn scan_error_views(v: Seq<ScanError>) -> Seq<ScanErrorModel> {
    v.map_values(|e: ScanError| e@)
}

pub enum CheckErrorModel {
    ApiError { operation: Seq<char>, message: Seq<char>, status: Option<u16>, retryable: bool },
    RateLimited { forge: Seq<char>, reset_at: Seq<char> },
    AuthRequired { forge: Seq<char> },
    Network { message: Seq<char> },
}

impl View for CheckError {
    type V = CheckErrorModel;

    open spec fn view(&self) -> CheckErrorModel {
        match self {
            CheckError::ApiError { operation, message, status, retryable } => CheckErrorModel::ApiError {
                operation: operation@,
                message: message@,
                status: *status,
                retryable: *retryable,
            },
            CheckError::RateLimited { forge, reset_at } => CheckErrorModel::RateLimited {
                forge: forge@,
                reset_at: reset_at@,
            },
            CheckError::AuthRequired { forge } => CheckErrorModel::AuthRequired { forge: forge@ },
            CheckError::Network { message } => CheckErrorModel::Network { message: message@ },
        }
    }
}

/// The message of a check error.
pub open spec fn check_error_text(e: CheckErrorModel) -> Seq<char> {
    match e {
        CheckErrorModel::ApiError { operation, message, .. } => "API request failed for "@
            + operation + ": "@ + message,
        CheckErrorModel::RateLimited { forge, reset_at } => "rate limited by "@ + forge
            + ", resets at "@ + reset_at,
        CheckErrorModel::AuthRequired { forge } => "authentication required for "@ + forge,
        CheckErrorModel::Network { message } => "network error: "@ + message,
    }
}

impl CheckError {
    /// The error message (e.g. `network error: connection refused`).
    pub fn render(&self) -> (s: String)
        ensures
            s@ == check_error_text(self@),
    {
        let mut s = String::new();
        match self {
            CheckError::ApiError { operation, message, .. } => {
                push_str(&mut s, "API request failed for ");
                s.append(operation.as_str());
                push_str(&mut s, ": ");
                s.append(message.as_str());
            },
            CheckError::RateLimited { forge, reset_at } => {
                push_str(&mut s, "rate limited by ");
                s.append(forge.as_str());
                push_str(&mut s, ", resets at ");
                s.append(reset_at.as_str());
            },
            CheckError::AuthRequired { forge } => {
                push_str(&mut s, "authentication required for ");
                s.append(forge.as_str());
            },
            CheckError::Network { message } => {
                push_str(&mut s, "network error: ");
                s.append(message.as_str());
            },
        }
        proof {
            assert(s@ =~= check_error_text(self@));
        }
        s
    }

    /// A copy of the error.
    pub fn duplicate(&self) -> (e: CheckError)
        ensures
            e@ == self@,
    {
        match self {
            CheckError::ApiError { operation, message, status, retryable } => CheckError::ApiError {
                operation: operation.clone(),
                message: message.clone(),
                status: *status,
                retryable: *retryable,
            },
            CheckError::RateLimited { forge, reset_at } => CheckError::RateLimited {
                forge: forge.clone(),
                reset_at: reset_at.clone(),
            },
            CheckError::AuthRequired { forge } => CheckError::AuthRequired { forge: forge.clone() },
            CheckError::Network { message } => CheckError::Network { message: message.clone() },
        }
    }
}

/// The `Display` text of an I/O error (`<std::io::Error as ToString>::to_string`).
/// Nothing is claimed of it: it comes from the operating system.
#[verifier::external_body]
fn io_error_text(e: &std::io::Error) -> String {
    e.to_string()
}

/// The message of a scan error whose text is fully determined by its fields
/// (a file-read error also carries the operating system's text).
pub open spec fn scan_error_text(e: ScanErrorModel) -> Seq<char> {
    match e {
        ScanErrorModel::Parse { file, line, message, .. } => "parse error in "@ + file + ":"@
            + decimal(line as nat) + ": "@ + message,
        ScanErrorModel::FileRead { path } => "failed to read "@ + path + ": "@,
        ScanErrorModel::Walk { path, message } => "failed to walk directory "@ + path + ": "@
            + message,
    }
}

impl ScanError {
    /// The error message (e.g. `parse error in src/main.rs:42: unexpected token`).
    /// For a file-read error the operating system's text of the I/O error follows.
    pub fn render(&self) -> (s: String)
        ensures
            !(self@ is FileRead) ==> s@ == scan_error_text(self@),
            self@ is FileRead ==> exists|t: Seq<char>| s@ == scan_error_text(self@) + t,
    {
        let mut s = String::new();
        match self {
            ScanError::Parse { file, line, message, .. } => {
                push_str(&mut s, "parse error in ");
                s.append(file.as_str());
                push_str(&mut s, ":");
                push_decimal(&mut s, *line as u64);
                push_str(&mut s, ": ");
                s.append(message.as_str());
            },
            ScanError::FileRead { path, source } => {
                push_str(&mut s, "failed to read ");
                s.append(path.as_str());
                push_str(&mut s, ": ");
                let ghost before = s@;
                let t = io_error_text(source);
                s.append(t.as_str());
                proof {
                    assert(before =~= scan_error_text(self@));
                    assert(s@ =~= scan_error_text(self@) + t@);
                }
            },
            ScanError::Walk { path, message } => {
                push_str(&mut s, "failed to walk directory ");
                s.append(path.as_str());
                push_str(&mut s, ": ");
                s.append(message.as_str());
            },
        }
        proof {
            if !(self@ is FileRead) {
                assert(s@ =~= scan_error_text(self@));
            }
        }
        s
    }
}

impl FatalError {
    /// The error message (e.g. `no files to scan`).
    pub fn render(&self) -> (s: String)
        ensures
            s@ == match self {
                FatalError::Config { message } => "configuration error: "@ + message@,
                FatalError::NoInput => "no files to scan"@,
            },
    {
        match self {
            FatalError::Config { message } => {
                let mut s = owned("configuration error: ");
                s.append(message.as_str());
                s
            },
            FatalError::NoInput => owned("no files to scan"),
        }
    }
}

} // verus!
