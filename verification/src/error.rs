//! What can go wrong while cases are discovered, parsed, run and reconciled.

use crate::text::{push_chars, push_str, string_of};
use vstd::prelude::*;

verus! {

/// A failure of the harness.
#[derive(Debug)]
pub enum SqlnessError {
    /// A case file or a configuration file could not be read.
    ReadPath { path: String, reason: String },
    /// The configuration is malformed.
    ParseConfig { reason: String },
    /// A directive holds nothing from which a prefix could be taken.
    MissingPrefix { line: String },
    /// No interceptor is registered under the directive's prefix.
    UnknownInterceptor { prefix: String },
    /// The interceptor registered under `prefix` refuses its arguments.
    InvalidContext { prefix: String, msg: String },
    /// A result file could not be read or written.
    IOFailure { reason: String },
    /// The captured output is not valid text.
    EncodingFailure,
    /// The run ended with `count` cases that failed or could not be run.
    RunFailed { count: usize },
}

/// A failure as a value of mathematics.
pub enum ErrorView {
    ReadPath { path: Seq<char>, reason: Seq<char> },
    ParseConfig { reason: Seq<char> },
    MissingPrefix { line: Seq<char> },
    UnknownInterceptor { prefix: Seq<char> },
    InvalidContext { prefix: Seq<char>, msg: Seq<char> },
    IOFailure { reason: Seq<char> },
    EncodingFailure,
    RunFailed { count: nat },
}

impl View for SqlnessError {
    type V = ErrorView;

    open spec fn view(&self) -> ErrorView {
        match *self {
            SqlnessError::ReadPath { path, reason } => ErrorView::ReadPath {
                path: path@,
                reason: reason@,
            },
            SqlnessError::ParseConfig { reason } => ErrorView::ParseConfig { reason: reason@ },
            SqlnessError::MissingPrefix { line } => ErrorView::MissingPrefix { line: line@ },
            SqlnessError::UnknownInterceptor { prefix } => ErrorView::UnknownInterceptor {
                prefix: prefix@,
            },
            SqlnessError::InvalidContext { prefix, msg } => ErrorView::InvalidContext {
                prefix: prefix@,
                msg: msg@,
            },
            SqlnessError::IOFailure { reason } => ErrorView::IOFailure { reason: reason@ },
            SqlnessError::EncodingFailure => ErrorView::EncodingFailure,
            SqlnessError::RunFailed { count } => ErrorView::RunFailed { count: count as nat },
        }
    }
}

/// The decimal digits of `n`, the most significant first; `0` for zero.
pub open spec fn digits(n: nat) -> Seq<char>
    decreases n,
{
    if n < 10 {
        seq![digit_char(n)]
    } else {
        digits(n / 10).push(digit_char(n % 10))
    }
}

/// The digit that writes `d`, for `d` below ten.
pub open spec fn digit_char(d: nat) -> char {
    if d == 0 {
        '0'
    } else if d == 1 {
        '1'
    } else if d == 2 {
        '2'
    } else if d == 3 {
        '3'
    } else if d == 4 {
        '4'
    } else if d == 5 {
        '5'
    } else if d == 6 {
        '6'
    } else if d == 7 {
        '7'
    } else if d == 8 {
        '8'
    } else {
        '9'
    }
}

/// The digit that writes `d`.
fn digit_of(d: usize) -> (c: char)
    requires
        d < 10,
    ensures
        c == digit_char(d as nat),
{
    if d == 0 {
        '0'
    } else if d == 1 {
        '1'
    } else if d == 2 {
        '2'
    } else if d == 3 {
        '3'
    } else if d == 4 {
        '4'
    } else if d == 5 {
        '5'
    } else if d == 6 {
        '6'
    } else if d == 7 {
        '7'
    } else if d == 8 {
        '8'
    } else {
        '9'
    }
}

/// The decimal digits of `n`.
pub fn digits_of(n: usize) -> (v: Vec<char>)
    ensures
        v@ == digits(n as nat),
    decreases n,
{
    if n < 10 {
        let mut v: Vec<char> = Vec::new();
        v.push(digit_of(n));
        v
    } else {
        let mut v = digits_of(n / 10);
        v.push(digit_of(n % 10));
        v
    }
}

impl ErrorView {
    /// The failure in words.
    pub open spec fn message(self) -> Seq<char> {
        match self {
            ErrorView::ReadPath { path, reason } => "Unable to read from path "@ + path + ": "@
                + reason,
            ErrorView::ParseConfig { reason } => "Failed to parse the configuration, error: "@
                + reason,
            ErrorView::MissingPrefix { line } => "Missing interceptor prefix, line:"@ + line,
            ErrorView::UnknownInterceptor { prefix } => "Unknown interceptor prefix, value:"@
                + prefix,
            ErrorView::InvalidContext { prefix, msg } => "Invalid interceptor context, prefix:"@
                + prefix + ", msg:"@ + msg,
            ErrorView::IOFailure { reason } => "IO operation failed, source error: "@ + reason,
            ErrorView::EncodingFailure =>
                "Cannot parse the output/result file. Not valid UTF-8 encoding"@,
            ErrorView::RunFailed { count } => "Run failed. "@ + digits(count)
                + " cases can't pass"@,
        }
    }
}

impl SqlnessError {
    /// The failure in words.
    pub fn message(&self) -> (s: String)
        ensures
            s@ == self@.message(),
    {
        let mut out: Vec<char> = Vec::new();
        match self {
            SqlnessError::ReadPath { path, reason } => {
                push_str(&mut out, "Unable to read from path ");
                push_str(&mut out, path.as_str());
                push_str(&mut out, ": ");
                push_str(&mut out, reason.as_str());
            },
            SqlnessError::ParseConfig { reason } => {
                push_str(&mut out, "Failed to parse the configuration, error: ");
                push_str(&mut out, reason.as_str());
            },
            SqlnessError::MissingPrefix { line } => {
                push_str(&mut out, "Missing interceptor prefix, line:");
                push_str(&mut out, line.as_str());
            },
            SqlnessError::UnknownInterceptor { prefix } => {
                push_str(&mut out, "Unknown interceptor prefix, value:");
                push_str(&mut out, prefix.as_str());
            },
            SqlnessError::InvalidContext { prefix, msg } => {
                push_str(&mut out, "Invalid interceptor context, prefix:");
                push_str(&mut out, prefix.as_str());
                push_str(&mut out, ", msg:");
                push_str(&mut out, msg.as_str());
            },
            SqlnessError::IOFailure { reason } => {
                push_str(&mut out, "IO operation failed, source error: ");
                push_str(&mut out, reason.as_str());
            },
            SqlnessError::EncodingFailure => {
                push_str(
                    &mut out,
                    "Cannot parse the output/result file. Not valid UTF-8 encoding",
                );
            },
            SqlnessError::RunFailed { count } => {
                push_str(&mut out, "Run failed. ");
                let d = digits_of(*count);
                push_chars(&mut out, &d);
                push_str(&mut out, " cases can't pass");
            },
        }
        proof {
            assert(out@ =~= self@.message());
        }
        string_of(&out)
    }

    /// A copy of this failure.
    pub fn duplicate(&self) -> (r: SqlnessError)
        ensures
            r@ == self@,
    {
        match self {
            SqlnessError::ReadPath { path, reason } => SqlnessError::ReadPath {
                path: path.clone(),
                reason: reason.clone(),
            },
            SqlnessError::ParseConfig { reason } => SqlnessError::ParseConfig {
                reason: reason.clone(),
            },
            SqlnessError::MissingPrefix { line } => SqlnessError::MissingPrefix {
                line: line.clone(),
            },
            SqlnessError::UnknownInterceptor { prefix } => SqlnessError::UnknownInterceptor {
                prefix: prefix.clone(),
            },
            SqlnessError::InvalidContext { prefix, msg } => SqlnessError::InvalidContext {
                prefix: prefix.clone(),
                msg: msg.clone(),
            },
            SqlnessError::IOFailure { reason } => SqlnessError::IOFailure {
                reason: reason.clone(),
            },
            SqlnessError::EncodingFailure => SqlnessError::EncodingFailure,
            SqlnessError::RunFailed { count } => SqlnessError::RunFailed { count: *count },
        }
    }
}

} // verus!
