//! The log: entries with the time since start, a buffer that keeps the last
//! `MAX_LOG_ENTRIES` of them, and how an entry is shown on the console.
use vstd::prelude::*;

use std::collections::VecDeque;

use crate::text::{push_char, push_str};

verus! {

broadcast use vstd::seq_lib::group_seq_properties;

/// How many entries the buffer keeps.
pub const MAX_LOG_ENTRIES: usize = 500;

/// The character of the decimal digit `d`.
pub open spec fn digit_char(d: nat) -> char {
    (48 + d) as char
}

/// The decimal text of `n`.
pub open spec fn decimal(n: nat) -> Seq<char>
    decreases n,
{
    if n < 10 {
        seq![digit_char(n)]
    } else {
        decimal(n / 10).push(digit_char(n % 10))
    }
}

/// The decimal text of `n`, at least two digits wide (as `{:02}`).
pub open spec fn two_digits(n: nat) -> Seq<char> {
    if n < 10 {
        seq!['0'] + decimal(n)
    } else {
        decimal(n)
    }
}

/// `HH:MM:SS` of `secs` seconds; the hours are not wrapped.
pub open spec fn clock_text(secs: nat) -> Seq<char> {
    two_digits(secs / 3600) + seq![':'] + two_digits((secs % 3600) / 60) + seq![':'] + two_digits(
        secs % 60,
    )
}

/// Appends the decimal text of `n` to `s`.
pub fn push_decimal(s: &mut String, n: u64)
    ensures
        final(s)@ == old(s)@ + decimal(n as nat),
    decreases n,
{
    if n >= 10 {
        push_decimal(s, n / 10);
    }
    let d: u8 = (n % 10) as u8;
    let c: char = (48u8 + d) as char;
    push_char(s, c);
    proof {
        assert(c == digit_char((n % 10) as nat));
    }
}

/// Appends `n` to `s`, at least two digits wide.
fn push_two_digits(s: &mut String, n: u64)
    ensures
        final(s)@ == old(s)@ + two_digits(n as nat),
{
    if n < 10 {
        push_char(s, '0');
    }
    push_decimal(s, n);
}

/// The time `elapsed_secs` after start as `HH:MM:SS`.
pub fn format_time(elapsed_secs: u64) -> (r: String)
    ensures
        r@ == clock_text(elapsed_secs as nat),
{
    let hours = elapsed_secs / 3600;
    let mins = (elapsed_secs % 3600) / 60;
    let secs = elapsed_secs % 60;
    let mut s = String::new();
    push_two_digits(&mut s, hours);
    push_char(&mut s, ':');
    push_two_digits(&mut s, mins);
    push_char(&mut s, ':');
    push_two_digits(&mut s, secs);
    s
}

/// One log entry.
pub struct LogEntry {
    pub timestamp: String,
    pub level: String,
    pub message: String,
}

/// A log entry as values.
pub struct EntryView {
    pub timestamp: Seq<char>,
    pub level: Seq<char>,
    pub message: Seq<char>,
}

impl LogEntry {
    pub open spec fn view(&self) -> EntryView {
        EntryView { timestamp: self.timestamp@, level: self.level@, message: self.message@ }
    }

    /// A copy of the entry.
    pub fn copy(&self) -> (r: LogEntry)
        ensures
            r.view() == self.view(),
    {
        LogEntry {
            timestamp: self.timestamp.clone(),
            level: self.level.clone(),
            message: self.message.clone(),
        }
    }
}

/// The views of a list of entries.
pub open spec fn entries_view(s: Seq<LogEntry>) -> Seq<EntryView> {
    s.map_values(|e: LogEntry| e.view())
}

/// The last `MAX_LOG_ENTRIES` log entries, oldest first.
pub struct LogBuffer {
    pub logs: VecDeque<LogEntry>,
}

/// The entries after one more is pushed: the oldest leaves when the buffer
/// is full.
pub open spec fn pushed(logs: Seq<EntryView>, e: EntryView) -> Seq<EntryView> {
    if logs.len() >= MAX_LOG_ENTRIES {
        logs.drop_first().push(e)
    } else {
        logs.push(e)
    }
}

/// The buffer keeps at most `MAX_LOG_ENTRIES` entries, and the newest entry
/// is always the last one pushed.
pub proof fn law_log_bounded(logs: Seq<EntryView>, e: EntryView)
    requires
        logs.len() <= MAX_LOG_ENTRIES,
    ensures
        pushed(logs, e).len() <= MAX_LOG_ENTRIES,
        pushed(logs, e).last() == e,
{
}

/// Where the most recent `count` entries of `n` begin.
pub open spec fn recent_start(n: nat, count: nat) -> nat {
    if n > count {
        (n - count) as nat
    } else {
        0
    }
}

/// Copies the entries `s`.
fn copy_entries(s: &VecDeque<LogEntry>, start: usize) -> (r: Vec<LogEntry>)
    requires
        start <= s@.len(),
    ensures
        entries_view(r@) == entries_view(s@).skip(start as int),
{
    let mut r: Vec<LogEntry> = Vec::new();
    let mut i: usize = start;
    while i < s.len()
        invariant
            start <= i <= s@.len(),
            entries_view(r@) =~= entries_view(s@).subrange(start as int, i as int),
        decreases s@.len() - i,
    {
        let ghost r0 = r@;
        let e = s[i].copy();
        r.push(e);
        proof {
            assert(r@ =~= r0.push(e));
            assert(entries_view(r@) =~= entries_view(r0).push(e.view()));
        }
        i = i + 1;
    }
    r
}

impl LogBuffer {
    pub open spec fn view(&self) -> Seq<EntryView> {
        entries_view(self.logs@)
    }

    /// An empty buffer.
    pub fn new() -> (r: LogBuffer)
        ensures
            r.view().len() == 0,
    {
        LogBuffer { logs: VecDeque::new() }
    }

    /// Records an entry at `timestamp`: the oldest entry leaves when the buffer
    /// is full.
    pub fn push(&mut self, timestamp: String, level: &str, message: &str)
        ensures
            final(self).view() == pushed(
                old(self).view(),
                EntryView { timestamp: timestamp@, level: level@, message: message@ },
            ),
    {
        let mut l = String::new();
        push_str(&mut l, level);
        let mut m = String::new();
        push_str(&mut m, message);
        let entry = LogEntry { timestamp, level: l, message: m };
        let ghost s0 = self.logs@;
        if self.logs.len() >= MAX_LOG_ENTRIES {
            let _ = self.logs.pop_front();
            proof {
                assert(self.logs@ =~= s0.drop_first());
                assert(entries_view(self.logs@) =~= entries_view(s0).drop_first());
            }
        }
        let ghost s1 = self.logs@;
        self.logs.push_back(entry);
        proof {
            assert(self.logs@ =~= s1.push(entry));
            assert(entries_view(self.logs@) =~= entries_view(s1).push(entry.view()));
        }
    }

    /// All entries, oldest first.
    pub fn get_all(&self) -> (r: Vec<LogEntry>)
        ensures
            entries_view(r@) == self.view(),
    {
        let r = copy_entries(&self.logs, 0);
        proof {
            assert(entries_view(self.logs@).skip(0) =~= entries_view(self.logs@));
        }
        r
    }

    /// The most recent `count` entries, oldest first.
    pub fn get_recent(&self, count: usize) -> (r: Vec<LogEntry>)
        ensures
            entries_view(r@) == self.view().skip(recent_start(self.view().len(), count as nat) as int),
    {
        let n = self.logs.len();
        let start = if n > count {
            n - count
        } else {
            0
        };
        copy_entries(&self.logs, start)
    }

    /// Drops every entry.
    pub fn clear(&mut self)
        ensures
            final(self).view().len() == 0,
    {
        self.logs.clear();
    }
}

/// A log entry as the app shows it.
pub struct LogItem {
    pub timestamp: String,
    pub level: String,
    pub message: String,
}

impl From<LogEntry> for LogItem {
    fn from(entry: LogEntry) -> (r: LogItem) {
        LogItem { timestamp: entry.timestamp, level: entry.level, message: entry.message }
    }
}

impl vstd::std_specs::convert::FromSpecImpl<LogEntry> for LogItem {
    open spec fn obeys_from_spec() -> bool {
        true
    }

    open spec fn from_spec(entry: LogEntry) -> LogItem {
        LogItem { timestamp: entry.timestamp, level: entry.level, message: entry.message }
    }
}

/// Where a log line goes on the console.
#[derive(Clone, Copy, PartialEq, Eq, Debug, Structural)]
pub enum ConsoleStream {
    /// Standard output.
    Stdout,
    /// Standard error.
    Stderr,
}

/// How a message of `level` is shown on the console: nothing for `DEBUG`,
/// `[警告] ` before a `WARN`, `[错误] ` on standard error for an `ERROR`, the
/// message alone otherwise.
pub open spec fn console_view(level: Seq<char>, message: Seq<char>) -> Option<(bool, Seq<char>)> {
    if level == "INFO"@ {
        Some((false, message))
    } else if level == "WARN"@ {
        Some((false, "[警告] "@ + message))
    } else if level == "ERROR"@ {
        Some((true, "[错误] "@ + message))
    } else if level == "DEBUG"@ {
        None
    } else {
        Some((false, message))
    }
}

/// Whether `a` is the text `b`.
fn same_text(a: &str, b: &str) -> (r: bool)
    ensures
        r == (a@ == b@),
{
    crate::hyper::eq_chars(&crate::text::chars_of(a), &crate::text::chars_of(b))
}

/// The console line of a message and the stream it goes to, as
/// `console_view` says.
pub fn console_line(level: &str, message: &str) -> (r: Option<(ConsoleStream, String)>)
    ensures
        match (r, console_view(level@, message@)) {
            (None, None) => true,
            (Some((stream, line)), Some((to_err, text))) => line@ == text && (stream is Stderr)
                == to_err,
            _ => false,
        },
{
    let mut line = String::new();
    if same_text(level, "INFO") {
        push_str(&mut line, message);
        Some((ConsoleStream::Stdout, line))
    } else if same_text(level, "WARN") {
        push_str(&mut line, "[警告] ");
        push_str(&mut line, message);
        Some((ConsoleStream::Stdout, line))
    } else if same_text(level, "ERROR") {
        push_str(&mut line, "[错误] ");
        push_str(&mut line, message);
        Some((ConsoleStream::Stderr, line))
    } else if same_text(level, "DEBUG") {
        None
    } else {
        push_str(&mut line, message);
        Some((ConsoleStream::Stdout, line))
    }
}

} // verus!
