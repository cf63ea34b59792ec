//! The log-routing pipeline: severities, target- and content-based sink
//! filters, line formatting, and the empty-line elision that keeps blank
//! lines out of every sink.

use vstd::prelude::*;
use colored::Colorize;
use crate::config::{ascii_lower_spec, eq_lowered};
use crate::text::{is_ws_char, str_eq, trim, trim_spec, trim_start_spec};

verus! {

/// A record's severity.  The order is
/// `Error > Warn > Info > Debug > Trace`.
#[derive(Clone, Copy, Debug, PartialEq, Eq, Structural)]
pub enum LogLevel {
    Error,
    Warn,
    Info,
    Debug,
    Trace,
}

/// Rank of a severity: higher is more severe.
pub open spec fn severity(l: LogLevel) -> int {
    match l {
        LogLevel::Error => 4,
        LogLevel::Warn => 3,
        LogLevel::Info => 2,
        LogLevel::Debug => 1,
        LogLevel::Trace => 0,
    }
}

/// Upper-case name of a severity.
pub open spec fn spec_level_name(l: LogLevel) -> Seq<char> {
    match l {
        LogLevel::Error => "ERROR"@,
        LogLevel::Warn => "WARN"@,
        LogLevel::Info => "INFO"@,
        LogLevel::Debug => "DEBUG"@,
        LogLevel::Trace => "TRACE"@,
    }
}

/// Upper-case name of a severity, as used in file sinks.
pub fn level_name(l: LogLevel) -> (r: &'static str)
    ensures
        r@ == spec_level_name(l),
{
    match l {
        LogLevel::Error => "ERROR",
        LogLevel::Warn => "WARN",
        LogLevel::Info => "INFO",
        LogLevel::Debug => "DEBUG",
        LogLevel::Trace => "TRACE",
    }
}

/// The severity a log-level text denotes, without regard to ASCII case;
/// an unrecognised text denotes `Info`.
pub open spec fn spec_level_from_str(s: Seq<char>) -> LogLevel {
    let l = ascii_lower_spec(s);
    if l == "error"@ {
        LogLevel::Error
    } else if l == "warn"@ {
        LogLevel::Warn
    } else if l == "info"@ {
        LogLevel::Info
    } else if l == "debug"@ {
        LogLevel::Debug
    } else if l == "trace"@ {
        LogLevel::Trace
    } else {
        LogLevel::Info
    }
}

/// Translate a log-level text into a severity threshold.
pub fn level_from_str(s: &str) -> (r: LogLevel)
    ensures
        r == spec_level_from_str(s@),
{
    if eq_lowered(s, "error") {
        LogLevel::Error
    } else if eq_lowered(s, "warn") {
        LogLevel::Warn
    } else if eq_lowered(s, "info") {
        LogLevel::Info
    } else if eq_lowered(s, "debug") {
        LogLevel::Debug
    } else if eq_lowered(s, "trace") {
        LogLevel::Trace
    } else {
        LogLevel::Info
    }
}

// ---------------------------------------------------------------------------
// Heartbeat pattern
// ---------------------------------------------------------------------------

/// A heartbeat message: the trimmed text exactly equals one of a fixed closed
/// set of gateway lifecycle tokens, trailing semicolon included.
pub open spec fn spec_is_heartbeat(msg: Seq<char>) -> bool {
    let t = trim_spec(msg);
    t == "into_future;"@ || t == "start;"@ || t == "shutdown_all;"@ || t == "initialize;"@ || t
        == "run;"@ || t == "latency;"@ || t == "check_last_start;"@ || t == "recv;"@ || t
        == "do_heartbeat;"@ || t == "recv_event;"@ || t == "resume;"@ || t == "update_manager;"@
        || t == "action;"@ || t == "identify;"@ || t == "heartbeat;"@
}

/// Does the trimmed message match the heartbeat pattern?
pub fn is_heartbeat(msg: &str) -> (r: bool)
    ensures
        r == spec_is_heartbeat(msg@),
{
    let t = trim(msg);
    str_eq(t, "into_future;") || str_eq(t, "start;") || str_eq(t, "shutdown_all;") || str_eq(
        t,
        "initialize;",
    ) || str_eq(t, "run;") || str_eq(t, "latency;") || str_eq(t, "check_last_start;") || str_eq(
        t,
        "recv;",
    ) || str_eq(t, "do_heartbeat;") || str_eq(t, "recv_event;") || str_eq(t, "resume;") || str_eq(
        t,
        "update_manager;",
    ) || str_eq(t, "action;") || str_eq(t, "identify;") || str_eq(t, "heartbeat;")
}

// ---------------------------------------------------------------------------
// Sink routing
// ---------------------------------------------------------------------------

/// The four sinks of the pipeline.
#[derive(Clone, Copy, Debug, PartialEq, Eq, Structural)]
pub enum SinkKind {
    Console,
    RedFile,
    SerenityFile,
    HeartbeatFile,
}

/// Sequence prefix test.
pub open spec fn starts_with_spec(s: Seq<char>, p: Seq<char>) -> bool {
    s.len() >= p.len() && s.take(p.len() as int) == p
}

/// String prefix test.
pub fn starts_with(s: &str, p: &str) -> (r: bool)
    ensures
        r == starts_with_spec(s@, p@),
{
    let ns = s.unicode_len();
    let np = p.unicode_len();
    if ns < np {
        return false;
    }
    let mut i: usize = 0;
    while i < np
        invariant
            0 <= i <= np,
            np == p@.len(),
            ns == s@.len(),
            ns >= np,
            forall|j: int| 0 <= j < i ==> s@[j] == p@[j],
        decreases np - i,
    {
        if s.get_char(i) != p.get_char(i) {
            assert(s@.take(np as int)[i as int] != p@[i as int]);
            return false;
        }
        i = i + 1;
    }
    assert(s@.take(np as int) =~= p@);
    true
}

/// Does the sink receive a record?  The global threshold applies everywhere;
/// the console and main file take only non-`serenity` targets and drop
/// heartbeat noise; the `serenity` sidecar takes `serenity`-prefixed targets
/// of severity `warn` or higher; the heartbeat sidecar takes the `heartbeat`
/// target and the heartbeat-patterned messages.  Sidecars exist only when
/// `extra_logs` is on.
pub open spec fn spec_delivers(
    sink: SinkKind,
    level: LogLevel,
    target: Seq<char>,
    msg: Seq<char>,
    threshold: LogLevel,
    extra_logs: bool,
) -> bool {
    let global = severity(level) >= severity(threshold);
    match sink {
        SinkKind::Console => global && !starts_with_spec(target, "serenity"@)
            && !spec_is_heartbeat(msg),
        SinkKind::RedFile => global && !starts_with_spec(target, "serenity"@)
            && !spec_is_heartbeat(msg),
        SinkKind::SerenityFile => extra_logs && global && starts_with_spec(target, "serenity"@)
            && severity(level) >= severity(LogLevel::Warn),
        SinkKind::HeartbeatFile => extra_logs && global && (target == "heartbeat"@
            || spec_is_heartbeat(msg)),
    }
}

/// Decide whether one sink receives a record.
pub fn sink_delivers(
    sink: SinkKind,
    level: LogLevel,
    target: &str,
    msg: &str,
    threshold: LogLevel,
    extra_logs: bool,
) -> (r: bool)
    ensures
        r == spec_delivers(sink, level, target@, msg@, threshold, extra_logs),
{
    let global = severity_rank(level) >= severity_rank(threshold);
    match sink {
        SinkKind::Console => global && !starts_with(target, "serenity") && !is_heartbeat(msg),
        SinkKind::RedFile => global && !starts_with(target, "serenity") && !is_heartbeat(msg),
        SinkKind::SerenityFile => extra_logs && global && starts_with(target, "serenity")
            && severity_rank(level) >= severity_rank(LogLevel::Warn),
        SinkKind::HeartbeatFile => extra_logs && global && (str_eq(target, "heartbeat")
            || is_heartbeat(msg)),
    }
}

/// Rank of a severity, executable form.
pub fn severity_rank(l: LogLevel) -> (r: u32)
    ensures
        r as int == severity(l),
{
    match l {
        LogLevel::Error => 4,
        LogLevel::Warn => 3,
        LogLevel::Info => 2,
        LogLevel::Debug => 1,
        LogLevel::Trace => 0,
    }
}

// ---------------------------------------------------------------------------
// Line formatting
// ---------------------------------------------------------------------------

/// A formatted record line: timestamp, bracketed level, message.
pub open spec fn format_line_spec(ts: Seq<char>, level_text: Seq<char>, msg: Seq<char>) -> Seq<
    char,
> {
    ts + " ["@ + level_text + "] "@ + msg
}

/// Format one record line from its parts.
pub fn format_log_line(ts: &str, level_text: &str, msg: &str) -> (r: String)
    ensures
        r@ == format_line_spec(ts@, level_text@, msg@),
{
    let mut r = String::new();
    r.append(ts);
    r.append(" [");
    r.append(level_text);
    r.append("] ");
    r.append(msg);
    r
}

proof fn lemma_trim_start_keeps(s: Seq<char>, k: int)
    requires
        0 <= k < s.len(),
        !is_ws_char(s[k]),
    ensures
        exists|j: int|
            0 <= j < trim_start_spec(s).len() && !is_ws_char(#[trigger] trim_start_spec(s)[j]),
    decreases s.len(),
{
    if s.len() > 0 && is_ws_char(s[0]) {
        lemma_trim_start_keeps(s.drop_first(), k - 1);
        assert(trim_start_spec(s) == trim_start_spec(s.drop_first()));
    } else {
        assert(trim_start_spec(s) == s);
        assert(!is_ws_char(trim_start_spec(s)[k]));
    }
}

proof fn lemma_trim_end_keeps(s: Seq<char>, k: int)
    requires
        0 <= k < s.len(),
        !is_ws_char(s[k]),
    ensures
        trim_end_spec_len(s) > 0,
    decreases s.len(),
{
    if s.len() > 0 && is_ws_char(s.last()) {
        lemma_trim_end_keeps(s.drop_last(), k);
    }
}

spec fn trim_end_spec_len(s: Seq<char>) -> int {
    crate::text::trim_end_spec(s).len() as int
}

/// A sequence with a non-whitespace character does not trim to nothing.
pub proof fn lemma_trim_nonempty(s: Seq<char>, k: int)
    requires
        0 <= k < s.len(),
        !is_ws_char(s[k]),
    ensures
        trim_spec(s).len() > 0,
{
    lemma_trim_start_keeps(s, k);
    let t = trim_start_spec(s);
    let j = choose|j: int| 0 <= j < t.len() && !is_ws_char(#[trigger] t[j]);
    lemma_trim_end_keeps(t, j);
}

/// No formatted record line is blank: the bracket before the level never
/// trims away.
pub proof fn lemma_formatted_line_not_blank(ts: Seq<char>, level_text: Seq<char>, msg: Seq<char>)
    ensures
        trim_spec(format_line_spec(ts, level_text, msg)).len() > 0,
{
    reveal_strlit(" [");
    let line = format_line_spec(ts, level_text, msg);
    let k: int = ts.len() as int + 1;
    assert(line[k] == '[') by {
        assert((" ["@)[1] == '[');
        assert(line[k] == (" ["@)[1]);
    }
    assert(!is_ws_char('['));
    lemma_trim_nonempty(line, k);
}

// ---------------------------------------------------------------------------
// Console colouring
// ---------------------------------------------------------------------------

/// The bold-coloured form of a severity name, as the console renders it when
/// colouring is on.
pub open spec fn styled_level_name(l: LogLevel) -> Seq<char> {
    match l {
        LogLevel::Error => "\u{1b}[1;31mERROR\u{1b}[0m"@,
        LogLevel::Warn => "\u{1b}[1;33mWARN\u{1b}[0m"@,
        LogLevel::Info => "\u{1b}[1;32mINFO\u{1b}[0m"@,
        LogLevel::Debug => "\u{1b}[1;34mDEBUG\u{1b}[0m"@,
        LogLevel::Trace => "\u{1b}[1;36mTRACE\u{1b}[0m"@,
    }
}

/// Relies on colored's `Colorize::red` and `bold`: the rendering is the plain
/// text, or the text wrapped in the bold-red SGR sequence when the crate's
/// colour switch is on.
#[verifier::external_body]
fn styled_error() -> (r: String)
    ensures
        r@ == "ERROR"@ || r@ == "\u{1b}[1;31mERROR\u{1b}[0m"@,
{
    "ERROR".red().bold().to_string()
}

/// Relies on colored's `Colorize::yellow` and `bold`, as `styled_error` does.
#[verifier::external_body]
fn styled_warn() -> (r: String)
    ensures
        r@ == "WARN"@ || r@ == "\u{1b}[1;33mWARN\u{1b}[0m"@,
{
    "WARN".yellow().bold().to_string()
}

/// Relies on colored's `Colorize::green` and `bold`, as `styled_error` does.
#[verifier::external_body]
fn styled_info() -> (r: String)
    ensures
        r@ == "INFO"@ || r@ == "\u{1b}[1;32mINFO\u{1b}[0m"@,
{
    "INFO".green().bold().to_string()
}

/// Relies on colored's `Colorize::blue` and `bold`, as `styled_error` does.
#[verifier::external_body]
fn styled_debug() -> (r: String)
    ensures
        r@ == "DEBUG"@ || r@ == "\u{1b}[1;34mDEBUG\u{1b}[0m"@,
{
    "DEBUG".blue().bold().to_string()
}

/// Relies on colored's `Colorize::cyan` and `bold`, as `styled_error` does.
#[verifier::external_body]
fn styled_trace() -> (r: String)
    ensures
        r@ == "TRACE"@ || r@ == "\u{1b}[1;36mTRACE\u{1b}[0m"@,
{
    "TRACE".cyan().bold().to_string()
}

/// The console form of a severity name: its plain name, or its bold-coloured
/// form when the colour switch is on.
pub fn colorize_level(l: LogLevel) -> (r: String)
    ensures
        r@ == spec_level_name(l) || r@ == styled_level_name(l),
{
    match l {
        LogLevel::Error => styled_error(),
        LogLevel::Warn => styled_warn(),
        LogLevel::Info => styled_info(),
        LogLevel::Debug => styled_debug(),
        LogLevel::Trace => styled_trace(),
    }
}


// ---------------------------------------------------------------------------
// Empty-line elision
// ---------------------------------------------------------------------------

/// Whitespace bytes for line blankness: space, tab, carriage return, newline.
pub open spec fn is_ws_byte(b: u8) -> bool {
    b == 32 || b == 9 || b == 13 || b == 10
}

/// A line whose trimmed form is empty: every byte is whitespace.
pub open spec fn blank_line(l: Seq<u8>) -> bool {
    forall|i: int| 0 <= i < l.len() ==> is_ws_byte(#[trigger] l[i])
}

/// First newline byte, if any.
pub open spec fn find_nl(s: Seq<u8>) -> Option<int>
    decreases s.len(),
{
    if s.len() == 0 {
        None
    } else if s[0] == 10 {
        Some(0)
    } else {
        match find_nl(s.drop_first()) {
            Some(i) => Some(i + 1),
            None => None,
        }
    }
}

/// What `find_nl` returns: the first newline position.
pub proof fn lemma_find_nl_props(s: Seq<u8>)
    ensures
        match find_nl(s) {
            Some(i) => 0 <= i < s.len() && s[i] == 10 && forall|j: int| 0 <= j < i ==> s[j] != 10,
            None => forall|j: int| 0 <= j < s.len() ==> s[j] != 10,
        },
    decreases s.len(),
{
    if s.len() > 0 && s[0] != 10 {
        let t = s.drop_first();
        lemma_find_nl_props(t);
        match find_nl(t) {
            Some(i) => {
                assert(s[i + 1] == t[i]);
                assert forall|j: int| 0 <= j < i + 1 implies s[j] != 10 by {
                    if j > 0 {
                        assert(t[j - 1] != 10);
                        assert(s[j] == t[j - 1]);
                    }
                }
            },
            None => {
                assert forall|j: int| 0 <= j < s.len() implies s[j] != 10 by {
                    if j > 0 {
                        assert(t[j - 1] != 10);
                        assert(s[j] == t[j - 1]);
                    }
                }
            },
        }
    }
}

/// A first newline pins `find_nl` down.
pub proof fn lemma_find_nl_witness(s: Seq<u8>, i: int)
    requires
        0 <= i < s.len(),
        s[i] == 10,
        forall|j: int| 0 <= j < i ==> s[j] != 10,
    ensures
        find_nl(s) == Some(i),
{
    lemma_find_nl_props(s);
    match find_nl(s) {
        Some(k) => {
            if k < i {
                assert(s[k] != 10);
            }
            if k > i {
                assert(s[i] != 10);
            }
        },
        None => {
            assert(s[i] != 10);
        },
    }
}

/// Absence of a newline pins `find_nl` to `None`.
pub proof fn lemma_find_nl_none(s: Seq<u8>)
    requires
        forall|j: int| 0 <= j < s.len() ==> s[j] != 10,
    ensures
        find_nl(s) is None,
{
    lemma_find_nl_props(s);
    if let Some(k) = find_nl(s) {
        assert(s[k] != 10);
    }
}

/// The bytes the elision filter forwards from buffered data: each complete
/// line, newline included, unless the line is blank.
pub open spec fn elide_out(data: Seq<u8>) -> Seq<u8>
    decreases data.len(),
{
    match find_nl(data) {
        Some(i) => if 0 <= i < data.len() {
            let line = data.subrange(0, i + 1);
            let rest = elide_out(data.subrange(i + 1, data.len() as int));
            if blank_line(line) {
                rest
            } else {
                line + rest
            }
        } else {
            seq![]
        },
        None => seq![],
    }
}

/// The bytes the elision filter keeps buffered: the tail after the last
/// newline.
pub open spec fn elide_rest(data: Seq<u8>) -> Seq<u8>
    decreases data.len(),
{
    match find_nl(data) {
        Some(i) => if 0 <= i < data.len() {
            elide_rest(data.subrange(i + 1, data.len() as int))
        } else {
            data
        },
        None => data,
    }
}

/// A line filter in front of a byte sink: it buffers until each newline and
/// forwards only the lines that are not blank after trimming.
pub struct NoEmptyLineWriter {
    pub buffer: Vec<u8>,
}

impl NoEmptyLineWriter {
    /// A filter with an empty buffer.
    pub fn new() -> (r: Self)
        ensures
            r.buffer@.len() == 0,
    {
        NoEmptyLineWriter { buffer: Vec::new() }
    }

    /// Take bytes in; hand back exactly the bytes to forward to the
    /// underlying sink, the blank lines elided.
    pub fn write(&mut self, buf: &[u8]) -> (out: Vec<u8>)
        ensures
            out@ == elide_out(old(self).buffer@ + buf@),
            final(self).buffer@ == elide_rest(old(self).buffer@ + buf@),
    {
        let mut data: Vec<u8> = Vec::new();
        let mut i: usize = 0;
        while i < self.buffer.len()
            invariant
                0 <= i <= self.buffer@.len(),
                self.buffer@ == old(self).buffer@,
                data@ == self.buffer@.take(i as int),
            decreases self.buffer@.len() - i,
        {
            data.push(self.buffer[i]);
            i = i + 1;
        }
        let mut k: usize = 0;
        while k < buf.len()
            invariant
                0 <= k <= buf@.len(),
                self.buffer@ == old(self).buffer@,
                data@ == self.buffer@ + buf@.take(k as int),
            decreases buf@.len() - k,
        {
            data.push(buf[k]);
            k = k + 1;
        }
        proof {
            assert(data@ =~= old(self).buffer@ + buf@);
        }
        let n = data.len();
        let mut out: Vec<u8> = Vec::new();
        let mut start: usize = 0;
        let mut blank: bool = true;
        proof {
            assert(data@.skip(0) =~= data@);
            assert(out@ + elide_out(data@) =~= elide_out(data@));
            assert(data@.subrange(0, 0) =~= Seq::<u8>::empty());
        }
        let mut j: usize = 0;
        while j < n
            invariant
                0 <= start <= j <= n,
                n == data@.len(),
                blank == blank_line(data@.subrange(start as int, j as int)),
                forall|m: int| start <= m < j ==> data@[m] != 10,
                elide_out(data@) == out@ + elide_out(data@.skip(start as int)),
                elide_rest(data@) == elide_rest(data@.skip(start as int)),
            decreases n - j,
        {
            let b = data[j];
            if b == 10 {
                let ghost tail = data@.skip(start as int);
                proof {
                    assert(tail[j - start as int] == 10);
                    assert(forall|m: int| 0 <= m < j - start as int ==> tail[m] != 10);
                    lemma_find_nl_witness(tail, j - start as int);
                    assert(tail.subrange(0, j - start as int + 1) =~= data@.subrange(
                        start as int,
                        j as int + 1,
                    ));
                    assert(tail.subrange(j - start as int + 1, tail.len() as int) =~= data@.skip(
                        j as int + 1,
                    ));
                    assert(blank_line(data@.subrange(start as int, j as int + 1))
                        == blank_line(data@.subrange(start as int, j as int))) by {
                        let full = data@.subrange(start as int, j as int + 1);
                        let head = data@.subrange(start as int, j as int);
                        assert(full.drop_last() =~= head);
                        if blank_line(head) {
                            assert(forall|m: int|
                                0 <= m < full.len() ==> is_ws_byte(#[trigger] full[m])) by {
                                assert(forall|m: int|
                                    0 <= m < head.len() ==> is_ws_byte(#[trigger] head[m]));
                                assert(full[full.len() - 1] == 10);
                                assert(forall|m: int| 0 <= m < full.len() - 1 ==> full[m] == head[m]);
                            }
                        } else {
                            let w = choose|m: int| 0 <= m < head.len() && !is_ws_byte(#[trigger] head[m]);
                            assert(!is_ws_byte(full[w]));
                        }
                    }
                }
                if !blank {
                    let ghost pre_out = out@;
                    let mut c: usize = start;
                    while c <= j
                        invariant
                            start <= c <= j + 1,
                            j < n,
                            n == data@.len(),
                            out@ == pre_out + data@.subrange(start as int, c as int),
                        decreases j + 1 - c,
                    {
                        out.push(data[c]);
                        proof {
                            assert(out@ =~= pre_out + data@.subrange(start as int, c as int + 1));
                        }
                        c = c + 1;
                    }
                    proof {
                        assert(elide_out(data@) =~= out@ + elide_out(data@.skip(j as int + 1)));
                    }
                } else {
                    proof {
                        assert(elide_out(data@) =~= out@ + elide_out(data@.skip(j as int + 1)));
                    }
                }
                start = j + 1;
                blank = true;
                proof {
                    assert(data@.subrange(start as int, j as int + 1) =~= Seq::<u8>::empty());
                }
            } else {
                if !(b == 32 || b == 9 || b == 13) {
                    blank = false;
                    proof {
                        assert(!is_ws_byte(data@[j as int]));
                        assert(data@.subrange(start as int, j as int + 1)[j - start as int]
                            == data@[j as int]);
                    }
                } else {
                    proof {
                        let head = data@.subrange(start as int, j as int);
                        let full = data@.subrange(start as int, j as int + 1);
                        assert(full.drop_last() =~= head);
                        if blank_line(head) {
                            assert(forall|m: int|
                                0 <= m < full.len() ==> is_ws_byte(#[trigger] full[m])) by {
                                assert(forall|m: int|
                                    0 <= m < head.len() ==> is_ws_byte(#[trigger] head[m]));
                                assert(is_ws_byte(full[full.len() - 1]));
                                assert(forall|m: int| 0 <= m < full.len() - 1 ==> full[m] == head[m]);
                            }
                        } else {
                            let w = choose|m: int| 0 <= m < head.len() && !is_ws_byte(#[trigger] head[m]);
                            assert(!is_ws_byte(full[w]));
                        }
                    }
                }
            }
            j = j + 1;
        }
        proof {
            let tail = data@.skip(start as int);
            assert(forall|m: int| 0 <= m < tail.len() ==> tail[m] != 10) by {
                assert(forall|m: int| start <= m < n ==> data@[m] != 10);
                assert(forall|m: int| 0 <= m < tail.len() ==> tail[m] == data@[m + start]);
            }
            lemma_find_nl_none(tail);
            assert(elide_out(tail) =~= Seq::<u8>::empty());
            assert(out@ =~= elide_out(data@));
            assert(elide_rest(data@) == tail);
        }
        let mut restv: Vec<u8> = Vec::new();
        let mut c: usize = start;
        while c < n
            invariant
                start <= c <= n,
                n == data@.len(),
                restv@ == data@.subrange(start as int, c as int),
            decreases n - c,
        {
            restv.push(data[c]);
            proof {
                assert(restv@ =~= data@.subrange(start as int, c as int + 1));
            }
            c = c + 1;
        }
        proof {
            assert(restv@ =~= data@.skip(start as int));
        }
        self.buffer = restv;
        out
    }

    /// Flush the pending tail, treating it as one line subject to the same
    /// rule, and leave the buffer empty.
    pub fn flush(&mut self) -> (out: Vec<u8>)
        ensures
            final(self).buffer@.len() == 0,
            blank_line(old(self).buffer@) ==> out@.len() == 0,
            !blank_line(old(self).buffer@) ==> out@ == old(self).buffer@,
    {
        let n = self.buffer.len();
        let mut blank: bool = true;
        let mut i: usize = 0;
        while i < n
            invariant
                0 <= i <= n,
                n == self.buffer@.len(),
                self.buffer@ == old(self).buffer@,
                blank == blank_line(self.buffer@.take(i as int)),
            decreases n - i,
        {
            let b = self.buffer[i];
            if !(b == 32 || b == 9 || b == 13 || b == 10) {
                blank = false;
                proof {
                    assert(!is_ws_byte(self.buffer@[i as int]));
                    assert(self.buffer@.take(i as int + 1)[i as int] == self.buffer@[i as int]);
                }
            } else {
                proof {
                    let head = self.buffer@.take(i as int);
                    let full = self.buffer@.take(i as int + 1);
                    assert(full.drop_last() =~= head);
                    if blank_line(head) {
                        assert(forall|m: int|
                            0 <= m < full.len() ==> is_ws_byte(#[trigger] full[m])) by {
                            assert(forall|m: int|
                                0 <= m < head.len() ==> is_ws_byte(#[trigger] head[m]));
                            assert(is_ws_byte(full[full.len() - 1]));
                            assert(forall|m: int| 0 <= m < full.len() - 1 ==> full[m] == head[m]);
                        }
                    } else {
                        let w = choose|m: int| 0 <= m < head.len() && !is_ws_byte(#[trigger] head[m]);
                        assert(!is_ws_byte(full[w]));
                    }
                }
            }
            i = i + 1;
        }
        proof {
            assert(self.buffer@.take(n as int) =~= self.buffer@);
        }
        let mut out: Vec<u8> = Vec::new();
        if !blank {
            let mut c: usize = 0;
            while c < n
                invariant
                    0 <= c <= n,
                    n == self.buffer@.len(),
                    self.buffer@ == old(self).buffer@,
                    out@ == self.buffer@.take(c as int),
                decreases n - c,
            {
                out.push(self.buffer[c]);
                proof {
                    assert(out@ =~= self.buffer@.take(c as int + 1));
                }
                c = c + 1;
            }
            proof {
                assert(out@ =~= old(self).buffer@);
            }
        }
        self.buffer = Vec::new();
        out
    }
}

/// Every newline-separated line of a byte stream is non-blank.
pub open spec fn lines_not_blank(s: Seq<u8>) -> bool
    decreases s.len(),
{
    match find_nl(s) {
        Some(i) => if 0 <= i < s.len() {
            !blank_line(s.subrange(0, i + 1)) && lines_not_blank(
                s.subrange(i + 1, s.len() as int),
            )
        } else {
            true
        },
        None => s.len() == 0 || !blank_line(s),
    }
}

/// No sink receives a blank line: whatever bytes arrive, every line the
/// elision filter forwards has a non-empty trimmed form.
pub proof fn lemma_elide_output_no_blank_lines(data: Seq<u8>)
    ensures
        lines_not_blank(elide_out(data)),
    decreases data.len(),
{
    lemma_find_nl_props(data);
    match find_nl(data) {
        Some(i) => {
            let line = data.subrange(0, i + 1);
            let tail = data.subrange(i + 1, data.len() as int);
            lemma_elide_output_no_blank_lines(tail);
            if blank_line(line) {
            } else {
                let rest = elide_out(tail);
                let whole = line + rest;
                assert(whole[i] == 10);
                assert(forall|j: int| 0 <= j < i ==> whole[j] == data[j]);
                lemma_find_nl_witness(whole, i);
                assert(whole.subrange(0, i + 1) =~= line);
                assert(whole.subrange(i + 1, whole.len() as int) =~= rest);
            }
        },
        None => {
            assert(elide_out(data) =~= Seq::<u8>::empty());
            assert(find_nl(Seq::<u8>::empty()) is None);
        },
    }
}



/// The line one sink writes for one record, if that sink receives it: the
/// record is dropped, or formatted as timestamp, bracketed level text and
/// message.
pub fn render_record(
    sink: SinkKind,
    level: LogLevel,
    ts: &str,
    level_text: &str,
    target: &str,
    msg: &str,
    threshold: LogLevel,
    extra_logs: bool,
) -> (r: Option<String>)
    ensures
        match r {
            Some(line) => spec_delivers(sink, level, target@, msg@, threshold, extra_logs)
                && line@ == format_line_spec(ts@, level_text@, msg@),
            None => !spec_delivers(sink, level, target@, msg@, threshold, extra_logs),
        },
{
    if sink_delivers(sink, level, target, msg, threshold, extra_logs) {
        Some(format_log_line(ts, level_text, msg))
    } else {
        None
    }
}

// ---------------------------------------------------------------------------
// Routing laws
// ---------------------------------------------------------------------------

/// The console and the main file never receive a record whose target is
/// prefixed `serenity`, whatever the threshold and switches.
pub proof fn lemma_serenity_never_on_main_sinks(
    level: LogLevel,
    target: Seq<char>,
    msg: Seq<char>,
    threshold: LogLevel,
    extra_logs: bool,
)
    requires
        starts_with_spec(target, "serenity"@),
    ensures
        !spec_delivers(SinkKind::Console, level, target, msg, threshold, extra_logs),
        !spec_delivers(SinkKind::RedFile, level, target, msg, threshold, extra_logs),
{
}

/// A record with a `serenity`-prefixed target and severity below `warn`
/// reaches no sink at all.  The one content rule that could still catch it is
/// the heartbeat pattern, so the law asks for a non-heartbeat message.
pub proof fn lemma_serenity_below_warn_reaches_no_sink(
    sink: SinkKind,
    level: LogLevel,
    target: Seq<char>,
    msg: Seq<char>,
    threshold: LogLevel,
    extra_logs: bool,
)
    requires
        starts_with_spec(target, "serenity"@),
        severity(level) < severity(LogLevel::Warn),
        !spec_is_heartbeat(msg),
    ensures
        !spec_delivers(sink, level, target, msg, threshold, extra_logs),
{
    reveal_strlit("serenity");
    reveal_strlit("heartbeat");
    if target == "heartbeat"@ {
        assert(target.take("serenity"@.len() as int) == "serenity"@);
        assert(target.take(8)[0] == target[0]);
        assert("heartbeat"@[0] == 'h');
        assert("serenity"@[0] == 's');
    }
}

/// A heartbeat-patterned record stays off the console and the main file; with
/// the sidecars on and the severity within the global threshold, the
/// heartbeat file receives it.
pub proof fn lemma_heartbeat_routing(
    level: LogLevel,
    target: Seq<char>,
    msg: Seq<char>,
    threshold: LogLevel,
    extra_logs: bool,
)
    requires
        spec_is_heartbeat(msg),
    ensures
        !spec_delivers(SinkKind::Console, level, target, msg, threshold, extra_logs),
        !spec_delivers(SinkKind::RedFile, level, target, msg, threshold, extra_logs),
        extra_logs && severity(level) >= severity(threshold) ==> spec_delivers(
            SinkKind::HeartbeatFile,
            level,
            target,
            msg,
            threshold,
            extra_logs,
        ),
{
}

} // verus!
