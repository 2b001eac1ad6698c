//! `KEY=value` lines of an environment file.
use vstd::prelude::*;
use crate::text::{chars_of, string_of};

verus! {

/// Whether `c` has the Unicode `White_Space` property.
pub open spec fn is_white_space(c: char) -> bool {
    let v = c as u32;
    (0x9 <= v <= 0xD) || v == 0x20 || v == 0x85 || v == 0xA0 || v == 0x1680 || (0x2000 <= v
        <= 0x200A) || v == 0x2028 || v == 0x2029 || v == 0x202F || v == 0x205F || v == 0x3000
}

/// How many whitespace characters begin `s`.
pub open spec fn white_lead(s: Seq<char>) -> int
    decreases s.len(),
{
    if s.len() > 0 && is_white_space(s[0]) {
        1 + white_lead(s.drop_first())
    } else {
        0
    }
}

/// The end before the run of whitespace that ends at `end`.
pub open spec fn white_trail_from(s: Seq<char>, end: int) -> int
    decreases end,
{
    if end > 0 && is_white_space(s[end - 1]) {
        white_trail_from(s, end - 1)
    } else {
        end
    }
}

/// `s` without its leading and trailing whitespace.
pub open spec fn trim_of(s: Seq<char>) -> Seq<char> {
    if white_lead(s) == s.len() {
        Seq::empty()
    } else {
        s.subrange(white_lead(s), white_trail_from(s, s.len() as int))
    }
}

/// Relies on `str::trim`: leading and trailing characters with the Unicode
/// `White_Space` property removed, nothing else changed.
#[verifier::external_body]
fn trim(s: &str) -> (r: String)
    ensures
        r@ == trim_of(s@),
{
    s.trim().to_string()
}

/// Splits text into lines at each `\n`, each line without a trailing `\r`;
/// text after the last `\n`, if any, is a last line.
pub open spec fn text_lines(s: Seq<char>) -> Seq<Seq<char>> {
    let (lines, tail) = split_text(s);
    let all = if tail.len() > 0 {
        lines.push(tail)
    } else {
        lines
    };
    all.map_values(|l: Seq<char>| without_cr(l))
}

/// The completed lines and the unterminated tail of `s`.
pub open spec fn split_text(s: Seq<char>) -> (Seq<Seq<char>>, Seq<char>)
    decreases s.len(),
{
    if s.len() == 0 {
        (Seq::empty(), Seq::empty())
    } else {
        let (lines, tail) = split_text(s.drop_last());
        if s.last() == '\n' {
            (lines.push(tail), Seq::empty())
        } else {
            (lines, tail.push(s.last()))
        }
    }
}

/// A line without one trailing `\r`.
pub open spec fn without_cr(l: Seq<char>) -> Seq<char> {
    if l.len() > 0 && l.last() == '\r' {
        l.drop_last()
    } else {
        l
    }
}

/// `s` without every leading and trailing `c`.
pub open spec fn strip_char(s: Seq<char>, c: char) -> Seq<char> {
    s.subrange(lead(s, c), trail(s, c))
}

/// How many `c` begin `s`.
pub open spec fn lead(s: Seq<char>, c: char) -> int
    decreases s.len(),
{
    if s.len() > 0 && s[0] == c {
        1 + lead(s.drop_first(), c)
    } else {
        0
    }
}

/// The end of `s` once every trailing `c` is removed, but not below `lead(s, c)`.
pub open spec fn trail(s: Seq<char>, c: char) -> int {
    if lead(s, c) == s.len() {
        s.len() as int
    } else {
        trail_from(s, c, s.len() as int)
    }
}

/// The end before the run of `c` that ends at `end`.
pub open spec fn trail_from(s: Seq<char>, c: char, end: int) -> int
    decreases end,
{
    if end > 0 && s[end - 1] == c {
        trail_from(s, c, end - 1)
    } else {
        end
    }
}

/// The position of the first `=` in `s`.
pub open spec fn first_eq(s: Seq<char>) -> Option<int> {
    if exists|i: int| 0 <= i < s.len() && s[i] == '=' {
        Some(choose|i: int| 0 <= i < s.len() && s[i] == '=' && forall|j: int| 0 <= j < i ==> s[j] != '=')
    } else {
        None
    }
}

/// The key and value that one line sets: none for an empty line, a comment
/// line or a line without `=`; otherwise the trimmed text before the first `=`
/// and the trimmed text after it, without surrounding double and then single
/// quotes.
pub open spec fn env_entry(line: Seq<char>) -> Option<(Seq<char>, Seq<char>)> {
    let t = trim_of(line);
    if t.len() == 0 || t[0] == '#' {
        None
    } else {
        match first_eq(t) {
            None => None,
            Some(p) => Some(
                (
                    trim_of(t.take(p)),
                    strip_char(strip_char(trim_of(t.skip(p + 1)), '"'), '\''),
                ),
            ),
        }
    }
}

fn copy_range(s: &Vec<char>, from: usize, to: usize) -> (r: Vec<char>)
    requires
        from <= to <= s@.len(),
    ensures
        r@ == s@.subrange(from as int, to as int),
{
    let mut out: Vec<char> = Vec::new();
    let mut i: usize = from;
    while i < to
        invariant
            from <= i <= to <= s@.len(),
            out@ == s@.subrange(from as int, i as int),
        decreases to - i,
    {
        out.push(s[i]);
        i = i + 1;
        assert(out@ =~= s@.subrange(from as int, i as int));
    }
    out
}

proof fn lemma_lead_unique(s: Seq<char>, c: char, j: int)
    requires
        0 <= j <= s.len(),
        forall|k: int| 0 <= k < j ==> s[k] == c,
        j < s.len() ==> s[j] != c,
    ensures
        lead(s, c) == j,
    decreases s.len(),
{
    if j > 0 {
        lemma_lead_unique(s.drop_first(), c, j - 1);
    }
}

proof fn lemma_trail_from(s: Seq<char>, c: char, end: int, stop: int)
    requires
        0 <= stop <= end <= s.len(),
        forall|k: int| stop <= k < end ==> s[k] == c,
        stop == 0 || s[stop - 1] != c,
    ensures
        trail_from(s, c, end) == stop,
    decreases end,
{
    if end > stop {
        lemma_trail_from(s, c, end - 1, stop);
    }
}

/// Removes every leading and trailing `c`.
fn strip_char_exec(s: &Vec<char>, c: char) -> (r: Vec<char>)
    ensures
        r@ == strip_char(s@, c),
{
    let mut a: usize = 0;
    while a < s.len() && s[a] == c
        invariant
            a <= s@.len(),
            forall|k: int| 0 <= k < a ==> s@[k] == c,
        decreases s@.len() - a,
    {
        a = a + 1;
    }
    proof {
        lemma_lead_unique(s@, c, a as int);
    }
    let mut b: usize = s.len();
    if a < s.len() {
        while b > a && s[b - 1] == c
            invariant
                a <= b <= s@.len(),
                a < s@.len(),
                s@[a as int] != c,
                forall|k: int| b <= k < s@.len() ==> s@[k] == c,
            decreases b,
        {
            b = b - 1;
        }
        proof {
            lemma_trail_from(s@, c, s@.len() as int, b as int);
        }
    }
    copy_range(s, a, b)
}

/// The key and value that one line of an environment file sets, if any.
pub fn parse_env_line(line: &str) -> (r: Option<(String, String)>)
    ensures
        match env_entry(line@) {
            Some((k, v)) => r matches Some(p) && p.0@ == k && p.1@ == v,
            None => r is None,
        },
{
    let t = trim(line);
    let tc = chars_of(t.as_str());
    if tc.len() == 0 || tc[0] == '#' {
        return None;
    }
    let mut p: usize = 0;
    while p < tc.len() && tc[p] != '='
        invariant
            p <= tc@.len(),
            forall|j: int| 0 <= j < p ==> tc@[j] != '=',
        decreases tc@.len() - p,
    {
        p = p + 1;
    }
    if p == tc.len() {
        assert(!exists|i: int| 0 <= i < tc@.len() && tc@[i] == '=');
        return None;
    }
    let ghost q = choose|i: int|
        0 <= i < tc@.len() && tc@[i] == '=' && forall|j: int| 0 <= j < i ==> tc@[j] != '=';
    assert(0 <= p < tc@.len() && tc@[p as int] == '=');
    assert(q == p as int) by {
        if q < p as int {
        } else if q > p as int {
        }
    }
    let key_chars = copy_range(&tc, 0, p);
    let value_chars = copy_range(&tc, p + 1, tc.len());
    assert(key_chars@ =~= tc@.take(p as int));
    assert(value_chars@ =~= tc@.skip(p + 1));
    let key = trim(string_of(&key_chars).as_str());
    let value = trim(string_of(&value_chars).as_str());
    let unquoted = strip_char_exec(&chars_of(value.as_str()), '"');
    let stripped = strip_char_exec(&unquoted, '\'');
    Some((key, string_of(&stripped)))
}

/// Splits text into its lines, as `text_lines` describes.
pub fn env_lines(text: &str) -> (r: Vec<String>)
    ensures
        r@.map_values(|l: String| l@) == text_lines(text@),
{
    let cs = chars_of(text);
    let mut done: Vec<Vec<char>> = Vec::new();
    let mut cur: Vec<char> = Vec::new();
    let mut i: usize = 0;
    assert(cs@.take(0) =~= Seq::<char>::empty());
    while i < cs.len()
        invariant
            i <= cs@.len(),
            done@.map_values(|l: Vec<char>| l@) == split_text(cs@.take(i as int)).0,
            cur@ == split_text(cs@.take(i as int)).1,
        decreases cs@.len() - i,
    {
        assert(cs@.take(i + 1).drop_last() =~= cs@.take(i as int));
        if cs[i] == '\n' {
            let mut line: Vec<char> = Vec::new();
            core::mem::swap(&mut line, &mut cur);
            done.push(line);
        } else {
            cur.push(cs[i]);
        }
        i = i + 1;
        assert(done@.map_values(|l: Vec<char>| l@) =~= split_text(cs@.take(i as int)).0);
    }
    assert(cs@.take(i as int) =~= cs@);
    let ghost parts = split_text(cs@);
    if cur.len() > 0 {
        done.push(cur);
    }
    let ghost all = done@.map_values(|l: Vec<char>| l@);
    assert(all =~= if parts.1.len() > 0 {
        parts.0.push(parts.1)
    } else {
        parts.0
    });
    let mut out: Vec<String> = Vec::new();
    let mut k: usize = 0;
    while k < done.len()
        invariant
            k <= done@.len(),
            all == done@.map_values(|l: Vec<char>| l@),
            out@.len() == k,
            forall|j: int| 0 <= j < k ==> out@[j]@ == without_cr(all[j]),
        decreases done@.len() - k,
    {
        let l = &done[k];
        if l.len() > 0 && l[l.len() - 1] == '\r' {
            let trimmed = copy_range(l, 0, l.len() - 1);
            assert(trimmed@ =~= l@.drop_last());
            out.push(string_of(&trimmed));
        } else {
            out.push(string_of(l));
        }
        k = k + 1;
    }
    assert(out@.map_values(|l: String| l@) =~= text_lines(text@));
    out
}

/// Every key and value that the lines of an environment file set, in order.
pub fn parse_env(text: &str) -> (r: Vec<(String, String)>)
    ensures
        r@.map_values(|p: (String, String)| (p.0@, p.1@)) == text_lines(text@).filter_map(
            |l: Seq<char>| env_entry(l),
        ),
{
    let lines = env_lines(text);
    let ghost views = lines@.map_values(|l: String| l@);
    let mut out: Vec<(String, String)> = Vec::new();
    let mut i: usize = 0;
    while i < lines.len()
        invariant
            i <= lines@.len(),
            views == lines@.map_values(|l: String| l@),
            views == text_lines(text@),
            out@.map_values(|p: (String, String)| (p.0@, p.1@)) == views.take(i as int).filter_map(
                |l: Seq<char>| env_entry(l),
            ),
        decreases lines@.len() - i,
    {
        assert(views.take(i + 1).drop_last() =~= views.take(i as int));
        assert(views.take(i + 1).last() == lines@[i as int]@);
        match parse_env_line(lines[i].as_str()) {
            Some(p) => out.push(p),
            None => {},
        }
        i = i + 1;
        assert(out@.map_values(|p: (String, String)| (p.0@, p.1@)) =~= views.take(
            i as int,
        ).filter_map(|l: Seq<char>| env_entry(l)));
    }
    assert(views.take(i as int) =~= views);
    out
}

} // verus!
