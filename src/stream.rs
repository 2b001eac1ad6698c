//! The stream normaliser: both backend wire formats are turned into one
//! ordered sequence of `StreamEvent`s.
//!
//! The line-delimited backend is framed here into complete lines; the fields of
//! each parsed line are turned into an event by `line_event`. The marker-scan
//! backend is decoded here chunk by chunk, each chunk on its own.
use vstd::prelude::*;
use vstd::utf8::{decode_utf8, valid_utf8};
use crate::text::{
    chars_of, find_from, occurs_at, replace_all, replace_all_exec, string_of,
};

verus! {

/// One normalised unit of streamed output.
pub struct StreamEvent {
    pub chunk: String,
    pub done: bool,
}

// ---------------------------------------------------------------------------
// Line-delimited backend
// ---------------------------------------------------------------------------

/// Splits bytes at each `\n`: the completed lines (without the terminator) and
/// the unterminated tail.
pub open spec fn split_lines(s: Seq<u8>) -> (Seq<Seq<u8>>, Seq<u8>)
    decreases s.len(),
{
    if s.len() == 0 {
        (Seq::empty(), Seq::empty())
    } else {
        let (lines, tail) = split_lines(s.drop_last());
        if s.last() == 10u8 {
            (lines.push(tail), Seq::empty())
        } else {
            (lines, tail.push(s.last()))
        }
    }
}

/// Buffers bytes of a line-delimited stream and hands out each line once it
/// is complete.
pub struct LineFramer {
    pending: Vec<u8>,
}

impl LineFramer {
    /// The bytes received since the last line terminator.
    pub closed spec fn pending(&self) -> Seq<u8> {
        self.pending@
    }

    /// The buffered bytes hold no line terminator.
    pub closed spec fn wf(&self) -> bool {
        forall|i: int| 0 <= i < self.pending@.len() ==> self.pending@[i] != 10u8
    }

    pub fn new() -> (r: LineFramer)
        ensures
            r.wf(),
            r.pending() == Seq::<u8>::empty(),
    {
        LineFramer { pending: Vec::new() }
    }

    /// Appends `chunk` to the buffered bytes and returns every line that is now
    /// complete, in order; the unterminated rest stays buffered.
    pub fn feed(&mut self, chunk: &Vec<u8>) -> (r: Vec<Vec<u8>>)
        requires
            old(self).wf(),
        ensures
            final(self).wf(),
            r@.map_values(|l: Vec<u8>| l@) == split_lines(old(self).pending() + chunk@).0,
            final(self).pending() == split_lines(old(self).pending() + chunk@).1,
    {
        let ghost start = self.pending@;
        let mut lines: Vec<Vec<u8>> = Vec::new();
        let mut i: usize = 0;
        proof {
            lemma_split_no_newline(start);
            assert(start + chunk@.take(0) =~= start);
        }
        while i < chunk.len()
            invariant
                i <= chunk@.len(),
                lines@.map_values(|l: Vec<u8>| l@) == split_lines(start + chunk@.take(i as int)).0,
                self.pending@ == split_lines(start + chunk@.take(i as int)).1,
            decreases chunk@.len() - i,
        {
            let b = chunk[i];
            let ghost before = start + chunk@.take(i as int);
            proof {
                assert((start + chunk@.take(i + 1)).drop_last() =~= before);
            }
            if b == 10u8 {
                let mut line: Vec<u8> = Vec::new();
                core::mem::swap(&mut line, &mut self.pending);
                lines.push(line);
            } else {
                self.pending.push(b);
            }
            i = i + 1;
            assert(lines@.map_values(|l: Vec<u8>| l@) =~= split_lines(
                start + chunk@.take(i as int),
            ).0);
        }
        assert(chunk@.take(i as int) =~= chunk@);
        proof {
            lemma_split_tail(start + chunk@);
        }
        lines
    }

    /// Ends the stream: the unterminated rest, if any bytes were buffered, is
    /// handed out as a last line.
    pub fn finish(&mut self) -> (r: Option<Vec<u8>>)
        ensures
            final(self).wf(),
            final(self).pending() == Seq::<u8>::empty(),
            match r {
                Some(l) => old(self).pending().len() > 0 && l@ == old(self).pending(),
                None => old(self).pending().len() == 0,
            },
    {
        let mut line: Vec<u8> = Vec::new();
        core::mem::swap(&mut line, &mut self.pending);
        if line.len() > 0 {
            Some(line)
        } else {
            None
        }
    }
}

/// Bytes that hold no terminator form no line: they are the tail as they are.
proof fn lemma_split_no_newline(s: Seq<u8>)
    requires
        forall|i: int| 0 <= i < s.len() ==> s[i] != 10u8,
    ensures
        split_lines(s) == (Seq::<Seq<u8>>::empty(), s),
    decreases s.len(),
{
    if s.len() > 0 {
        lemma_split_no_newline(s.drop_last());
        assert(s.drop_last().push(s.last()) =~= s);
    }
}

/// The unterminated tail never holds a terminator.
proof fn lemma_split_tail(s: Seq<u8>)
    ensures
        forall|i: int| 0 <= i < split_lines(s).1.len() ==> split_lines(s).1[i] != 10u8,
    decreases s.len(),
{
    if s.len() > 0 {
        lemma_split_tail(s.drop_last());
        let t = split_lines(s.drop_last()).1;
        if s.last() != 10u8 {
            assert forall|i: int| 0 <= i < t.push(s.last()).len() implies t.push(s.last())[i]
                != 10u8 by {
                if i < t.len() {
                    assert(t.push(s.last())[i] == t[i]);
                }
            }
        }
    }
}

/// The two fields that a parsed line of the line-delimited backend may carry:
/// the nested message content and the completion flag.
pub struct ChatLine {
    pub content: Option<String>,
    pub done: Option<bool>,
}

/// Turns the fields of one parsed line into an event: a line without content
/// is skipped, and a missing completion flag counts as `false`.
pub fn line_event(line: ChatLine) -> (r: Option<StreamEvent>)
    ensures
        match line.content {
            Some(c) => r matches Some(e) && e.chunk@ == c@ && e.done == match line.done {
                Some(d) => d,
                None => false,
            },
            None => r is None,
        },
{
    match line.content {
        Some(c) => {
            let done = match line.done {
                Some(d) => d,
                None => false,
            };
            Some(StreamEvent { chunk: c, done })
        },
        None => None,
    }
}

// ---------------------------------------------------------------------------
// Marker-scan backend
// ---------------------------------------------------------------------------

/// The characters that precede a text value in the marker-scan backend.
pub open spec fn text_marker() -> Seq<char> {
    seq!['"', 't', 'e', 'x', 't', '"', ':', ' ', '"']
}

/// The position of the first unescaped quote at or after `k`: a backslash
/// escapes the character after it.
pub open spec fn closing_quote(s: Seq<char>, k: int) -> Option<int>
    decreases s.len() - k,
    when 0 <= k
{
    if k >= s.len() {
        None
    } else if s[k] == '\\' {
        if k + 1 < s.len() {
            closing_quote(s, k + 2)
        } else {
            None
        }
    } else if s[k] == '"' {
        Some(k)
    } else {
        closing_quote(s, k + 1)
    }
}

/// The two fixed substitutions: an escaped newline becomes a newline, then an
/// escaped quote becomes a quote.
pub open spec fn unescape(raw: Seq<char>) -> Seq<char> {
    replace_all(replace_all(raw, seq!['\\', 'n'], seq!['\n']), seq!['\\', '"'], seq!['"'])
}

/// True when `p` is the first position at which the marker occurs in `s`.
pub open spec fn is_first_marker(s: Seq<char>, p: int) -> bool {
    occurs_at(s, text_marker(), p) && forall|q: int| 0 <= q < p ==> !occurs_at(s, text_marker(), q)
}

/// The text carried by one chunk of decoded characters: the value after the
/// first marker, up to the next unescaped quote, unescaped.
pub open spec fn marked_text(s: Seq<char>) -> Option<Seq<char>> {
    if exists|p: int| is_first_marker(s, p) {
        let p = choose|p: int| is_first_marker(s, p);
        match closing_quote(s, p + 9) {
            Some(e) => Some(unescape(s.subrange(p + 9, e))),
            None => None,
        }
    } else {
        None
    }
}

/// Relies on `std::str::from_utf8`: `Ok` exactly when the bytes are valid
/// UTF-8 (no overlong forms, no surrogates), holding the characters they encode.
#[verifier::external_body]
fn utf8_text(b: &[u8]) -> (r: Option<String>)
    ensures
        r is Some <==> valid_utf8(b@),
        r matches Some(s) ==> s@ == decode_utf8(b@),
{
    std::str::from_utf8(b).ok().map(|s| s.to_string())
}

/// The text that one chunk of the marker-scan backend carries, if any: none
/// when the chunk is not valid UTF-8.
pub open spec fn chunk_text(b: Seq<u8>) -> Option<Seq<char>> {
    if valid_utf8(b) {
        marked_text(decode_utf8(b))
    } else {
        None
    }
}

/// A closing quote found from `k` lies at or after `k` and inside `s`.
proof fn lemma_closing_quote_bounds(s: Seq<char>, k: int)
    requires
        0 <= k,
    ensures
        closing_quote(s, k) matches Some(e) ==> k <= e < s.len(),
    decreases s.len() - k,
{
    if k < s.len() {
        if s[k] == '\\' {
            if k + 1 < s.len() {
                lemma_closing_quote_bounds(s, k + 2);
            }
        } else if s[k] != '"' {
            lemma_closing_quote_bounds(s, k + 1);
        }
    }
}

/// The position of the first unescaped quote at or after `k`.
fn closing_quote_exec(s: &Vec<char>, k: usize) -> (r: Option<usize>)
    ensures
        match closing_quote(s@, k as int) {
            Some(e) => r == Some(e as usize),
            None => r is None,
        },
{
    let mut i: usize = k;
    while i < s.len()
        invariant
            k <= i,
            closing_quote(s@, i as int) == closing_quote(s@, k as int),
        decreases s@.len() - i,
    {
        if s[i] == '\\' {
            if i + 1 < s.len() {
                i = i + 2;
            } else {
                return None;
            }
        } else if s[i] == '"' {
            return Some(i);
        } else {
            i = i + 1;
        }
    }
    None
}

/// Extracts and unescapes the value that follows the first marker in `s`.
pub fn marked_text_exec(s: &Vec<char>) -> (r: Option<Vec<char>>)
    ensures
        match marked_text(s@) {
            Some(t) => r matches Some(v) && v@ == t,
            None => r is None,
        },
{
    let marker: Vec<char> = vec!['"', 't', 'e', 'x', 't', '"', ':', ' ', '"'];
    assert(marker@ =~= text_marker());
    match find_from(s, &marker, 0) {
        None => {
            assert(!exists|p: int| is_first_marker(s@, p));
            None
        },
        Some(p) => {
            assert(is_first_marker(s@, p as int));
            assert(marker@.len() == 9);
            let ghost q = choose|q: int| is_first_marker(s@, q);
            assert(q == p as int) by {
                if q < p as int {
                } else if q > p as int {
                }
            }
            let n = s.len();
            assert(p as int + 9 <= n as int);
            let start = p + 9;
            match closing_quote_exec(s, start) {
                None => None,
                Some(e) => {
                    proof {
                        lemma_closing_quote_bounds(s@, start as int);
                    }
                    let mut raw: Vec<char> = Vec::new();
                    let mut i: usize = start;
                    while i < e
                        invariant
                            start <= i <= e <= s@.len(),
                            raw@ == s@.subrange(start as int, i as int),
                        decreases e - i,
                    {
                        raw.push(s[i]);
                        i = i + 1;
                        assert(raw@ =~= s@.subrange(start as int, i as int));
                    }
                    let esc_newline: Vec<char> = vec!['\\', 'n'];
                    let newline: Vec<char> = vec!['\n'];
                    let esc_quote: Vec<char> = vec!['\\', '"'];
                    let quote: Vec<char> = vec!['"'];
                    assert(esc_newline@ =~= seq!['\\', 'n']);
                    assert(newline@ =~= seq!['\n']);
                    assert(esc_quote@ =~= seq!['\\', '"']);
                    assert(quote@ =~= seq!['"']);
                    let once = replace_all_exec(&raw, &esc_newline, &newline);
                    let twice = replace_all_exec(&once, &esc_quote, &quote);
                    Some(twice)
                },
            }
        },
    }
}

/// Decodes one chunk of the marker-scan backend: an event carrying the
/// unescaped text when the chunk is valid UTF-8 and holds a complete marked
/// value, nothing otherwise. Chunks are scanned independently of each other,
/// so a marked value split across two chunks is found in neither.
pub fn marker_chunk_event(chunk: &[u8]) -> (r: Option<StreamEvent>)
    ensures
        match chunk_text(chunk@) {
            Some(t) => r matches Some(e) && e.chunk@ == t && !e.done,
            None => r is None,
        },
{
    match utf8_text(chunk) {
        None => None,
        Some(text) => {
            let cs = chars_of(text.as_str());
            match marked_text_exec(&cs) {
                Some(v) => Some(StreamEvent { chunk: string_of(&v), done: false }),
                None => None,
            }
        },
    }
}

/// The texts that a marker-scan stream delivered as these chunks carries, in order.
pub open spec fn marker_texts(chunks: Seq<Seq<u8>>) -> Seq<Seq<char>>
    decreases chunks.len(),
{
    if chunks.len() == 0 {
        Seq::empty()
    } else {
        let rest = marker_texts(chunks.drop_last());
        match chunk_text(chunks.last()) {
            Some(t) => rest.push(t),
            None => rest,
        }
    }
}

/// Decodes a whole marker-scan stream: one non-terminal event for each chunk
/// that carries a text, in order, then the terminal `{"", true}` event.
pub fn decode_marker_chunks(chunks: &Vec<Vec<u8>>) -> (r: Vec<StreamEvent>)
    ensures
        r@.len() == marker_texts(chunks@.map_values(|c: Vec<u8>| c@)).len() + 1,
        forall|i: int|
            0 <= i < r@.len() - 1 ==> r@[i].chunk@ == marker_texts(
                chunks@.map_values(|c: Vec<u8>| c@),
            )[i] && !r@[i].done,
        r@.last().chunk@ == Seq::<char>::empty(),
        r@.last().done,
{
    let ghost views = chunks@.map_values(|c: Vec<u8>| c@);
    let mut events: Vec<StreamEvent> = Vec::new();
    let mut i: usize = 0;
    while i < chunks.len()
        invariant
            i <= chunks@.len(),
            views == chunks@.map_values(|c: Vec<u8>| c@),
            events@.len() == marker_texts(views.take(i as int)).len(),
            forall|k: int|
                0 <= k < events@.len() ==> events@[k].chunk@ == marker_texts(views.take(i as int))[k]
                    && !events@[k].done,
        decreases chunks@.len() - i,
    {
        assert(views.take(i + 1).drop_last() =~= views.take(i as int));
        assert(views.take(i + 1).last() == chunks@[i as int]@);
        match marker_chunk_event(chunks[i].as_slice()) {
            Some(e) => events.push(e),
            None => {},
        }
        i = i + 1;
    }
    assert(views.take(i as int) =~= views);
    events.push(marker_end_event());
    events
}

/// The event that closes a marker-scan stream once its source is exhausted.
pub fn marker_end_event() -> (r: StreamEvent)
    ensures
        r.chunk@ == Seq::<char>::empty(),
        r.done,
{
    StreamEvent { chunk: String::new(), done: true }
}

} // verus!
