use vstd::prelude::*;

verus! {

/// The severity of a log record, most severe first.
#[derive(PartialEq, Eq, Structural, Clone, Copy, Debug)]
pub enum LogLevel {
    Error,
    Warn,
    Info,
    Debug,
    Trace,
}

/// The most verbose level that the logger lets through.
#[derive(PartialEq, Eq, Structural, Clone, Copy, Debug)]
pub enum LogLevelFilter {
    Error,
    Warn,
    Info,
    Debug,
    Trace,
}

/// The ANSI color code a record of `level` is printed in.
pub open spec fn spec_level_color(level: LogLevel) -> u8 {
    match level {
        LogLevel::Error => 31,
        LogLevel::Warn => 93,
        LogLevel::Info => 34,
        LogLevel::Debug => 32,
        LogLevel::Trace => 90,
    }
}

/// The ANSI color code a record of `level` is printed in: red for errors,
/// bright yellow for warnings, blue for information, green for debugging
/// and bright black for tracing.
pub fn level_color(level: LogLevel) -> (color: u8)
    ensures
        color == spec_level_color(level),
{
    match level {
        LogLevel::Error => 31,
        LogLevel::Warn => 93,
        LogLevel::Info => 34,
        LogLevel::Debug => 32,
        LogLevel::Trace => 90,
    }
}

/// The level filter that the value of the `LOG` setting, as bytes,
/// selects: the ASCII words `ERROR`, `WARN`, `INFO`, `DEBUG` or `TRACE`
/// (written below as their byte values) select that level; any other value,
/// or none, selects `INFO`.
pub open spec fn spec_level_filter(env: Option<Seq<u8>>) -> LogLevelFilter {
    match env {
        Some(s) => if s == seq![69u8, 82u8, 82u8, 79u8, 82u8] {
            LogLevelFilter::Error
        } else if s == seq![87u8, 65u8, 82u8, 78u8] {
            LogLevelFilter::Warn
        } else if s == seq![73u8, 78u8, 70u8, 79u8] {
            LogLevelFilter::Info
        } else if s == seq![68u8, 69u8, 66u8, 85u8, 71u8] {
            LogLevelFilter::Debug
        } else if s == seq![84u8, 82u8, 65u8, 67u8, 69u8] {
            LogLevelFilter::Trace
        } else {
            LogLevelFilter::Info
        },
        None => LogLevelFilter::Info,
    }
}

/// Whether `s` and `word` hold the same bytes.
fn bytes_are(s: &[u8], word: &[u8]) -> (b: bool)
    ensures
        b == (s@ == word@),
{
    if s.len() != word.len() {
        return false;
    }
    let mut i: usize = 0;
    while i < s.len()
        invariant
            i <= s@.len(),
            s@.len() == word@.len(),
            forall|k: int| 0 <= k < i ==> s@[k] == word@[k],
        decreases s@.len() - i,
    {
        if s[i] != word[i] {
            return false;
        }
        i = i + 1;
    }
    assert(s@ =~= word@);
    true
}

/// The level filter that the value of the `LOG` setting, given as bytes,
/// selects.
pub fn level_filter(env: Option<&[u8]>) -> (filter: LogLevelFilter)
    ensures
        filter == spec_level_filter(
            match env {
                Some(s) => Some(s@),
                None => None,
            },
        ),
{
    match env {
        Some(s) => {
            let error = [69u8, 82u8, 82u8, 79u8, 82u8];
            let warn = [87u8, 65u8, 82u8, 78u8];
            let info = [73u8, 78u8, 70u8, 79u8];
            let debug = [68u8, 69u8, 66u8, 85u8, 71u8];
            let trace = [84u8, 82u8, 65u8, 67u8, 69u8];
            assert(error@ =~= seq![69u8, 82u8, 82u8, 79u8, 82u8]);
            assert(warn@ =~= seq![87u8, 65u8, 82u8, 78u8]);
            assert(info@ =~= seq![73u8, 78u8, 70u8, 79u8]);
            assert(debug@ =~= seq![68u8, 69u8, 66u8, 85u8, 71u8]);
            assert(trace@ =~= seq![84u8, 82u8, 65u8, 67u8, 69u8]);
            if bytes_are(s, &error) {
                LogLevelFilter::Error
            } else if bytes_are(s, &warn) {
                LogLevelFilter::Warn
            } else if bytes_are(s, &info) {
                LogLevelFilter::Info
            } else if bytes_are(s, &debug) {
                LogLevelFilter::Debug
            } else if bytes_are(s, &trace) {
                LogLevelFilter::Trace
            } else {
                LogLevelFilter::Info
            }
        },
        None => LogLevelFilter::Info,
    }
}

/// The kernel's logger; it prints each record in its level's color.
pub struct MyLogger;

impl MyLogger {
    /// Whether a record of `level` is printed: every record is.
    pub fn enabled(&self, level: LogLevel) -> (b: bool)
        ensures
            b,
    {
        true
    }
}

} // verus!
