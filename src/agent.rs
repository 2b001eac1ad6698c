//! The agent process multiplexer: checks the objective handed to an agent
//! process, and merges the process's two output streams and its exit into one
//! event sequence that ends with exactly one terminal event.
use vstd::prelude::*;
use crate::stream::StreamEvent;
use crate::text::{decimal_i32, signed_decimal};

verus! {

/// The longest objective accepted, in bytes.
pub const MAX_OBJECTIVE_BYTES: usize = 1000;

/// The characters an objective may not hold, in the order they are checked.
pub open spec fn forbidden_chars() -> Seq<char> {
    seq!['`', '$', '|', '&', ';', '>', '<', '\n', '\r']
}

/// The first character of `forbidden_chars()` from position `k` on that
/// occurs in `s`.
pub open spec fn first_forbidden_from(s: Seq<char>, k: int) -> Option<char>
    decreases forbidden_chars().len() - k,
    when 0 <= k
{
    if k >= forbidden_chars().len() {
        None
    } else if s.contains(forbidden_chars()[k]) {
        Some(forbidden_chars()[k])
    } else {
        first_forbidden_from(s, k + 1)
    }
}

/// How many bytes UTF-8 takes for `c`.
pub open spec fn char_utf8_len(c: char) -> nat {
    if (c as u32) < 0x80 {
        1
    } else if (c as u32) < 0x800 {
        2
    } else if (c as u32) < 0x10000 {
        3
    } else {
        4
    }
}

/// How many bytes UTF-8 takes for `s`.
pub open spec fn utf8_len(s: Seq<char>) -> nat
    decreases s.len(),
{
    if s.len() == 0 {
        0
    } else {
        utf8_len(s.drop_last()) + char_utf8_len(s.last())
    }
}

fn char_utf8_len_exec(c: char) -> (r: usize)
    ensures
        r == char_utf8_len(c),
{
    let v = c as u32;
    if v < 0x80 {
        1
    } else if v < 0x800 {
        2
    } else if v < 0x10000 {
        3
    } else {
        4
    }
}

proof fn lemma_utf8_len_prefix(s: Seq<char>, i: int)
    requires
        0 <= i <= s.len(),
    ensures
        utf8_len(s.take(i)) <= utf8_len(s),
    decreases s.len(),
{
    if i < s.len() {
        lemma_utf8_len_prefix(s.drop_last(), i);
        assert(s.drop_last().take(i) =~= s.take(i));
    } else {
        assert(s.take(i) =~= s);
    }
}

/// Why an objective was refused.
#[derive(Clone, Copy, Debug, PartialEq, Eq, Structural)]
pub enum ObjectiveError {
    /// It holds this shell metacharacter or control character.
    ForbiddenChar(char),
    /// It is longer than `MAX_OBJECTIVE_BYTES` bytes.
    TooLong,
}

fn contains_char(s: &Vec<char>, c: char) -> (r: bool)
    ensures
        r == s@.contains(c),
{
    let mut i: usize = 0;
    while i < s.len()
        invariant
            i <= s@.len(),
            forall|k: int| 0 <= k < i ==> s@[k] != c,
        decreases s@.len() - i,
    {
        if s[i] == c {
            return true;
        }
        i = i + 1;
    }
    false
}

/// Checks an objective before any process is started: the first forbidden
/// character it holds, in the order of `forbidden_chars()`, refuses it;
/// otherwise it is refused when longer than `MAX_OBJECTIVE_BYTES` bytes.
pub fn validate_objective(objective: &String) -> (r: Result<(), ObjectiveError>)
    ensures
        match first_forbidden_from(objective@, 0) {
            Some(c) => r == Err::<(), ObjectiveError>(ObjectiveError::ForbiddenChar(c)),
            None => if utf8_len(objective@) > MAX_OBJECTIVE_BYTES {
                r == Err::<(), ObjectiveError>(ObjectiveError::TooLong)
            } else {
                r is Ok
            },
        },
{
    let chars = crate::text::chars_of(objective.as_str());
    let forbidden: Vec<char> = vec!['`', '$', '|', '&', ';', '>', '<', '\n', '\r'];
    assert(forbidden@ =~= forbidden_chars());
    let mut k: usize = 0;
    while k < forbidden.len()
        invariant
            forbidden@ == forbidden_chars(),
            chars@ == objective@,
            k <= forbidden@.len(),
            first_forbidden_from(objective@, k as int) == first_forbidden_from(objective@, 0),
        decreases forbidden@.len() - k,
    {
        let c = forbidden[k];
        if contains_char(&chars, c) {
            return Err(ObjectiveError::ForbiddenChar(c));
        }
        k = k + 1;
    }
    assert(first_forbidden_from(objective@, k as int) is None);
    let mut total: usize = 0;
    let mut i: usize = 0;
    while i < chars.len()
        invariant
            first_forbidden_from(objective@, 0) is None,
            chars@ == objective@,
            i <= chars@.len(),
            total == utf8_len(chars@.take(i as int)),
            total <= MAX_OBJECTIVE_BYTES,
        decreases chars@.len() - i,
    {
        assert(chars@.take(i + 1).drop_last() =~= chars@.take(i as int));
        total = total + char_utf8_len_exec(chars[i]);
        i = i + 1;
        if total > MAX_OBJECTIVE_BYTES {
            proof {
                lemma_utf8_len_prefix(chars@, i as int);
            }
            return Err(ObjectiveError::TooLong);
        }
    }
    assert(chars@.take(i as int) =~= chars@);
    Ok(())
}

/// How the agent process ended.
pub enum ExitReport {
    /// It exited with success.
    Success,
    /// It exited otherwise, with this exit code when one is known.
    Code(Option<i32>),
    /// Waiting for it failed, for this reason.
    Failed(String),
}

/// The text that a `{:?}` of an optional exit code shows.
pub open spec fn code_text(code: Option<i32>) -> Seq<char> {
    match code {
        Some(c) => "Some("@ + signed_decimal(c as int) + ")"@,
        None => "None"@,
    }
}

/// The text of the terminal event for each way the process can end.
pub open spec fn exit_text(report: ExitReport) -> Seq<char> {
    match report {
        ExitReport::Success => "\n[SWARM COMPLETED SUCCESSFULLY]\n"@,
        ExitReport::Code(c) => "\n[SWARM EXITED WITH CODE: "@ + code_text(c) + "]\n"@,
        ExitReport::Failed(m) => "\n[SWARM ERROR: "@ + m@ + "]\n"@,
    }
}

/// The terminal event for how the process ended.
pub fn exit_event(report: ExitReport) -> (r: StreamEvent)
    ensures
        r.done,
        r.chunk@ == exit_text(report),
{
    let text = match report {
        ExitReport::Success => String::from_str("\n[SWARM COMPLETED SUCCESSFULLY]\n"),
        ExitReport::Code(c) => {
            let code = match c {
                Some(n) => String::from_str("Some(").concat(decimal_i32(n).as_str()).concat(")"),
                None => String::from_str("None"),
            };
            String::from_str("\n[SWARM EXITED WITH CODE: ").concat(code.as_str()).concat("]\n")
        },
        ExitReport::Failed(m) => String::from_str("\n[SWARM ERROR: ").concat(m.as_str()).concat(
            "]\n",
        ),
    };
    StreamEvent { chunk: text, done: true }
}

/// What the process side reports to the multiplexer.
pub enum ProcessEvent {
    /// A complete line read from standard output.
    StdoutLine(String),
    /// A complete line read from standard error.
    StderrLine(String),
    /// Standard output reached its end.
    StdoutClosed,
    /// Standard error reached its end.
    StderrClosed,
    /// The process ended.
    Exited(ExitReport),
}

/// Merges the events of one agent process into the outgoing event sequence.
pub struct Multiplexer {
    pub stdout_open: bool,
    pub stderr_open: bool,
    pub exit: Option<ExitReport>,
    pub finished: bool,
}

impl Multiplexer {
    /// True when the terminal event is owed: both streams are drained and the
    /// process has ended.
    pub open spec fn ready(&self) -> bool {
        !self.stdout_open && !self.stderr_open && self.exit is Some
    }

    /// Once the terminal event was sent, both streams are drained and the
    /// process has ended.
    pub open spec fn wf(&self) -> bool {
        self.finished ==> self.ready()
    }

    pub fn new() -> (r: Multiplexer)
        ensures
            r.wf(),
            r.stdout_open && r.stderr_open && r.exit is None && !r.finished,
    {
        Multiplexer { stdout_open: true, stderr_open: true, exit: None, finished: false }
    }

    /// Takes one event of the process and returns what goes out for it. A
    /// standard-output line goes out followed by a newline; a standard-error
    /// line goes out tagged with `[ERR] ` and followed by a newline; neither
    /// is terminal. The terminal event, which reports how the process ended,
    /// goes out once, at the first step after which both streams are closed
    /// and the exit is known; after it nothing more goes out.
    pub fn step(&mut self, event: ProcessEvent) -> (r: Option<StreamEvent>)
        requires
            old(self).wf(),
        ensures
            final(self).wf(),
            *final(self) == step_spec(*old(self), event).0,
            match step_spec(*old(self), event).1 {
                Some(o) => r matches Some(e) && e.chunk@ == o.0 && e.done == o.1,
                None => r is None,
            },
            old(self).finished ==> r is None && *final(self) == *old(self),
            !old(self).finished ==> match event {
                ProcessEvent::StdoutLine(l) => (r matches Some(e) && !e.done && e.chunk@ == l@
                    + "\n"@) && *final(self) == *old(self),
                ProcessEvent::StderrLine(l) => (r matches Some(e) && !e.done && e.chunk@ == "[ERR] "@
                    + l@ + "\n"@) && *final(self) == *old(self),
                ProcessEvent::StdoutClosed => !final(self).stdout_open && final(self).stderr_open
                    == old(self).stderr_open && final(self).exit == old(self).exit,
                ProcessEvent::StderrClosed => !final(self).stderr_open && final(self).stdout_open
                    == old(self).stdout_open && final(self).exit == old(self).exit,
                ProcessEvent::Exited(report) => final(self).exit == Some(report)
                    && final(self).stdout_open == old(self).stdout_open && final(self).stderr_open
                    == old(self).stderr_open,
            },
            !old(self).finished && !(event is StdoutLine) && !(event is StderrLine) ==> {
                &&& final(self).finished == final(self).ready()
                &&& final(self).finished ==> (r matches Some(e) && e.done && e.chunk@ == exit_text(
                    final(self).exit->0,
                ))
                &&& !final(self).finished ==> r is None
            },
    {
        if self.finished {
            return None;
        }
        match event {
            ProcessEvent::StdoutLine(l) => {
                Some(StreamEvent { chunk: l.concat("\n"), done: false })
            },
            ProcessEvent::StderrLine(l) => {
                let tagged = String::from_str("[ERR] ").concat(l.as_str()).concat("\n");
                Some(StreamEvent { chunk: tagged, done: false })
            },
            ProcessEvent::StdoutClosed => {
                self.stdout_open = false;
                self.finish_if_ready()
            },
            ProcessEvent::StderrClosed => {
                self.stderr_open = false;
                self.finish_if_ready()
            },
            ProcessEvent::Exited(report) => {
                self.exit = Some(report);
                self.finish_if_ready()
            },
        }
    }

    fn finish_if_ready(&mut self) -> (r: Option<StreamEvent>)
        requires
            !old(self).finished,
        ensures
            final(self).stdout_open == old(self).stdout_open,
            final(self).stderr_open == old(self).stderr_open,
            final(self).exit == old(self).exit,
            final(self).finished == old(self).ready(),
            final(self).finished ==> (r matches Some(e) && e.done && e.chunk@ == exit_text(
                final(self).exit->0,
            )),
            !final(self).finished ==> r is None,
    {
        if self.stdout_open || self.stderr_open {
            return None;
        }
        match &self.exit {
            None => None,
            Some(report) => {
                let owned = match report {
                    ExitReport::Success => ExitReport::Success,
                    ExitReport::Code(c) => ExitReport::Code(*c),
                    ExitReport::Failed(m) => ExitReport::Failed(m.clone()),
                };
                self.finished = true;
                Some(exit_event(owned))
            },
        }
    }
}

/// The text forwarded for a line event: a standard-output line followed by a
/// newline, a standard-error line tagged and followed by a newline.
pub open spec fn line_text(event: ProcessEvent) -> Option<Seq<char>> {
    match event {
        ProcessEvent::StdoutLine(l) => Some(l@ + "\n"@),
        ProcessEvent::StderrLine(l) => Some("[ERR] "@ + l@ + "\n"@),
        _ => None,
    }
}

/// Sends the terminal event when it is owed.
pub open spec fn settle(m: Multiplexer) -> (Multiplexer, Option<(Seq<char>, bool)>) {
    if m.ready() {
        (
            Multiplexer {
                stdout_open: m.stdout_open,
                stderr_open: m.stderr_open,
                exit: m.exit,
                finished: true,
            },
            Some((exit_text(m.exit->0), true)),
        )
    } else {
        (m, None)
    }
}

/// One step of the multiplexer: its next state and what goes out, as text
/// and completion flag.
pub open spec fn step_spec(m: Multiplexer, event: ProcessEvent) -> (
    Multiplexer,
    Option<(Seq<char>, bool)>,
) {
    if m.finished {
        (m, None)
    } else {
        match event {
            ProcessEvent::StdoutLine(_) => (m, Some((line_text(event)->0, false))),
            ProcessEvent::StderrLine(_) => (m, Some((line_text(event)->0, false))),
            ProcessEvent::StdoutClosed => settle(
                Multiplexer {
                    stdout_open: false,
                    stderr_open: m.stderr_open,
                    exit: m.exit,
                    finished: m.finished,
                },
            ),
            ProcessEvent::StderrClosed => settle(
                Multiplexer {
                    stdout_open: m.stdout_open,
                    stderr_open: false,
                    exit: m.exit,
                    finished: m.finished,
                },
            ),
            ProcessEvent::Exited(report) => settle(
                Multiplexer {
                    stdout_open: m.stdout_open,
                    stderr_open: m.stderr_open,
                    exit: Some(report),
                    finished: m.finished,
                },
            ),
        }
    }
}

/// The state after `events` and everything that went out, in order.
pub open spec fn run_events(m: Multiplexer, events: Seq<ProcessEvent>) -> (
    Multiplexer,
    Seq<(Seq<char>, bool)>,
)
    decreases events.len(),
{
    if events.len() == 0 {
        (m, Seq::empty())
    } else {
        let (prev, outs) = run_events(m, events.drop_last());
        let (next, out) = step_spec(prev, events.last());
        match out {
            Some(o) => (next, outs.push(o)),
            None => (next, outs),
        }
    }
}

/// The forwarded texts of the line events of `events`, in order, none terminal.
pub open spec fn forwarded_lines(events: Seq<ProcessEvent>) -> Seq<(Seq<char>, bool)>
    decreases events.len(),
{
    if events.len() == 0 {
        Seq::empty()
    } else {
        match line_text(events.last()) {
            Some(t) => forwarded_lines(events.drop_last()).push((t, false)),
            None => forwarded_lines(events.drop_last()),
        }
    }
}

/// Each stream's lines come before that stream's end.
pub open spec fn lines_before_close(events: Seq<ProcessEvent>) -> bool {
    forall|i: int, j: int|
        0 <= j < i < events.len() ==> {
            &&& events[i] is StdoutLine ==> !(events[j] is StdoutClosed)
            &&& events[i] is StderrLine ==> !(events[j] is StderrClosed)
        }
}

/// Started fresh and fed events in which each stream's lines precede its end,
/// the multiplexer forwards every line, in arrival order, as a non-terminal
/// event (so each stream's own lines keep their order and the two streams
/// interleave as they arrived); the only other event is one terminal event,
/// last, sent once both streams have ended and the exit is known, and
/// reporting that exit.
pub proof fn lemma_lines_forwarded_then_terminal(events: Seq<ProcessEvent>)
    requires
        lines_before_close(events),
    ensures
        ({
            let start = Multiplexer {
                stdout_open: true,
                stderr_open: true,
                exit: None,
                finished: false,
            };
            let (last, outs) = run_events(start, events);
            &&& !last.finished ==> outs == forwarded_lines(events)
            &&& last.finished ==> last.ready() && outs == forwarded_lines(events).push(
                (exit_text(last.exit->0), true),
            )
        }),
    decreases events.len(),
{
    let start = Multiplexer { stdout_open: true, stderr_open: true, exit: None, finished: false };
    lemma_run_state(start, events);
    if events.len() > 0 {
        let prefix = events.drop_last();
        assert(lines_before_close(prefix));
        lemma_lines_forwarded_then_terminal(prefix);
    }
}

/// The fresh multiplexer's streams stay open until their end arrives, and it
/// is finished only once it is ready.
proof fn lemma_run_state(start: Multiplexer, events: Seq<ProcessEvent>)
    requires
        start.stdout_open && start.stderr_open && start.exit is None && !start.finished,
    ensures
        run_events(start, events).0.stdout_open <==> !(exists|j: int|
            0 <= j < events.len() && events[j] is StdoutClosed),
        run_events(start, events).0.stderr_open <==> !(exists|j: int|
            0 <= j < events.len() && events[j] is StderrClosed),
        run_events(start, events).0.wf(),
    decreases events.len(),
{
    if events.len() > 0 {
        let prefix = events.drop_last();
        lemma_run_state(start, prefix);
        assert forall|j: int| 0 <= j < prefix.len() implies prefix[j] == events[j] by {}
        if exists|j: int| 0 <= j < prefix.len() && prefix[j] is StdoutClosed {
            let j = choose|j: int| 0 <= j < prefix.len() && prefix[j] is StdoutClosed;
            assert(events[j] is StdoutClosed);
        }
        if exists|j: int| 0 <= j < prefix.len() && prefix[j] is StderrClosed {
            let j = choose|j: int| 0 <= j < prefix.len() && prefix[j] is StderrClosed;
            assert(events[j] is StderrClosed);
        }
        if exists|j: int| 0 <= j < events.len() && events[j] is StdoutClosed {
            let j = choose|j: int| 0 <= j < events.len() && events[j] is StdoutClosed;
            if j < prefix.len() {
                assert(prefix[j] is StdoutClosed);
            }
        }
        if exists|j: int| 0 <= j < events.len() && events[j] is StderrClosed {
            let j = choose|j: int| 0 <= j < events.len() && events[j] is StderrClosed;
            if j < prefix.len() {
                assert(prefix[j] is StderrClosed);
            }
        }
    }
}

} // verus!
