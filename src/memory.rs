//! The memory log: entries per agent, ranked by importance and recency, with a
//! bound on how many are kept.
use vstd::prelude::*;
use crate::graph::KnowledgeGraph;
use crate::text::{chars_of, decimal, decimal_u64, lower_of, lowercase, string_of};

verus! {

broadcast use vstd::seq_lib::group_to_multiset_ensures;

/// The most entries the log keeps.
pub const MAX_MEMORIES: usize = 1000;

/// The most characters an entry's content may hold.
pub const MAX_CONTENT_CHARS: usize = 10000;

/// Bit pattern of the `f32` value 1.0.
pub const IMPORTANCE_ONE: u32 = 0x3F80_0000;

/// One remembered item. `importance` holds the bit pattern of a non-negative
/// `f32` no greater than 1.0: on such values the integer order of the bit
/// patterns is the numeric order of the floats.
pub struct MemoryEntry {
    pub id: String,
    pub agent: String,
    pub content: String,
    pub timestamp: i64,
    pub importance: u32,
}

impl MemoryEntry {
    /// A field-by-field copy.
    pub fn duplicate(&self) -> (r: MemoryEntry)
        ensures
            r == *self,
    {
        MemoryEntry {
            id: self.id.clone(),
            agent: self.agent.clone(),
            content: self.content.clone(),
            timestamp: self.timestamp,
            importance: self.importance,
        }
    }
}

/// Why a memory entry was refused.
#[derive(Clone, Copy, Debug, PartialEq, Eq, Structural)]
pub enum MemoryError {
    /// The agent or the content is empty.
    EmptyField,
    /// The content holds more than `MAX_CONTENT_CHARS` characters.
    ContentTooLong,
}

// ---------------------------------------------------------------------------
// Ranking
// ---------------------------------------------------------------------------

/// True when `a` ranks strictly ahead of `b`: by timestamp alone, or, when
/// `by_importance`, by importance and then by timestamp, larger first.
pub open spec fn outranks(a: MemoryEntry, b: MemoryEntry, by_importance: bool) -> bool {
    if by_importance {
        a.importance > b.importance || (a.importance == b.importance && a.timestamp > b.timestamp)
    } else {
        a.timestamp > b.timestamp
    }
}

/// No entry is outranked by one that comes before it.
pub open spec fn is_ranked(s: Seq<MemoryEntry>, by_importance: bool) -> bool {
    forall|i: int, j: int| 0 <= i < j < s.len() ==> !outranks(s[j], s[i], by_importance)
}

/// Where `e` goes among `s`: after every entry that outranks it.
pub open spec fn rank_position(s: Seq<MemoryEntry>, e: MemoryEntry, by_importance: bool) -> int
    decreases s.len(),
{
    if s.len() == 0 || !outranks(s[0], e, by_importance) {
        0
    } else {
        1 + rank_position(s.drop_first(), e, by_importance)
    }
}

/// A stable ranking of `s`: entries in rank order, equal ones in their order in `s`.
pub open spec fn rank_sorted(s: Seq<MemoryEntry>, by_importance: bool) -> Seq<MemoryEntry>
    decreases s.len(),
{
    if s.len() == 0 {
        s
    } else {
        let rest = rank_sorted(s.drop_first(), by_importance);
        rest.insert(rank_position(rest, s[0], by_importance), s[0])
    }
}

fn outranks_exec(a: &MemoryEntry, b: &MemoryEntry, by_importance: bool) -> (r: bool)
    ensures
        r == outranks(*a, *b, by_importance),
{
    if by_importance {
        a.importance > b.importance || (a.importance == b.importance && a.timestamp > b.timestamp)
    } else {
        a.timestamp > b.timestamp
    }
}

proof fn lemma_rank_position(s: Seq<MemoryEntry>, e: MemoryEntry, m: bool)
    ensures
        0 <= rank_position(s, e, m) <= s.len(),
        forall|k: int| 0 <= k < rank_position(s, e, m) ==> outranks(s[k], e, m),
        rank_position(s, e, m) < s.len() ==> !outranks(s[rank_position(s, e, m)], e, m),
    decreases s.len(),
{
    if s.len() > 0 && outranks(s[0], e, m) {
        lemma_rank_position(s.drop_first(), e, m);
        assert forall|k: int| 0 <= k < rank_position(s, e, m) implies outranks(s[k], e, m) by {
            if k > 0 {
                assert(s[k] == s.drop_first()[k - 1]);
            }
        }
    }
}

/// The position of the first entry that does not outrank `e` is the rank position.
proof fn lemma_rank_position_unique(s: Seq<MemoryEntry>, e: MemoryEntry, m: bool, j: int)
    requires
        0 <= j <= s.len(),
        forall|k: int| 0 <= k < j ==> outranks(s[k], e, m),
        j < s.len() ==> !outranks(s[j], e, m),
    ensures
        rank_position(s, e, m) == j,
    decreases s.len(),
{
    if j > 0 {
        lemma_rank_position_unique(s.drop_first(), e, m, j - 1);
    }
}

/// Ranking keeps the entries and puts them in rank order.
pub proof fn lemma_rank_sorted(s: Seq<MemoryEntry>, m: bool)
    ensures
        rank_sorted(s, m).len() == s.len(),
        rank_sorted(s, m).to_multiset() == s.to_multiset(),
        is_ranked(rank_sorted(s, m), m),
    decreases s.len(),
{
    if s.len() > 0 {
        let rest = rank_sorted(s.drop_first(), m);
        let e = s[0];
        lemma_rank_sorted(s.drop_first(), m);
        lemma_rank_position(rest, e, m);
        let p = rank_position(rest, e, m);
        let r = rest.insert(p, e);
        vstd::seq_lib::to_multiset_insert(rest, p, e);
        assert(s =~= s.drop_first().insert(0, e));
        vstd::seq_lib::to_multiset_insert(s.drop_first(), 0, e);
        assert forall|i: int, j: int| 0 <= i < j < r.len() implies !outranks(r[j], r[i], m) by {
            if j < p {
            } else if j == p {
            } else if i < p {
                assert(r[j] == rest[j - 1]);
            } else if i == p {
                assert(r[j] == rest[j - 1]);
                if p < rest.len() {
                    assert(!outranks(rest[j - 1], rest[p], m));
                }
            } else {
                assert(r[j] == rest[j - 1]);
                assert(r[i] == rest[i - 1]);
            }
        }
    }
}

/// Inserts `e` at its rank position among the ranked entries of `v`.
fn insert_ranked(v: &mut Vec<MemoryEntry>, e: MemoryEntry, by_importance: bool)
    ensures
        final(v)@ == old(v)@.insert(rank_position(old(v)@, e, by_importance), e),
{
    let mut j: usize = 0;
    while j < v.len() && outranks_exec(&v[j], &e, by_importance)
        invariant
            j <= v@.len(),
            forall|k: int| 0 <= k < j ==> outranks(v@[k], e, by_importance),
        decreases v@.len() - j,
    {
        j = j + 1;
    }
    proof {
        lemma_rank_position_unique(v@, e, by_importance, j as int);
    }
    v.insert(j, e);
}

/// Sorts entries into a stable rank order.
fn sort_ranked(v: Vec<MemoryEntry>, by_importance: bool) -> (r: Vec<MemoryEntry>)
    ensures
        r@ == rank_sorted(v@, by_importance),
{
    let ghost init = v@;
    let mut rest = v;
    let mut out: Vec<MemoryEntry> = Vec::new();
    assert(init.subrange(init.len() as int, init.len() as int) =~= Seq::<MemoryEntry>::empty());
    while rest.len() > 0
        invariant
            rest@ == init.take(rest@.len() as int),
            rest@.len() <= init.len(),
            out@ == rank_sorted(init.subrange(rest@.len() as int, init.len() as int), by_importance),
        decreases rest@.len(),
    {
        let ghost n = rest@.len() as int;
        let e = rest.pop().unwrap();
        proof {
            assert(init.subrange(n - 1, init.len() as int).drop_first() =~= init.subrange(
                n,
                init.len() as int,
            ));
            assert(init.subrange(n - 1, init.len() as int)[0] == e);
            assert(rest@ =~= init.take(n - 1));
        }
        insert_ranked(&mut out, e, by_importance);
    }
    assert(init.subrange(0, init.len() as int) =~= init);
    out
}

// ---------------------------------------------------------------------------
// The log
// ---------------------------------------------------------------------------

/// The log after an insertion: unchanged while within the bound; past it,
/// ranked newest first and cut to the newest `MAX_MEMORIES`.
pub open spec fn bounded(s: Seq<MemoryEntry>) -> Seq<MemoryEntry> {
    if s.len() > MAX_MEMORIES {
        rank_sorted(s, false).take(MAX_MEMORIES as int)
    } else {
        s
    }
}

/// The log after inserting each entry of `es` in turn.
pub open spec fn insert_all(s: Seq<MemoryEntry>, es: Seq<MemoryEntry>) -> Seq<MemoryEntry>
    decreases es.len(),
{
    if es.len() == 0 {
        s
    } else {
        bounded(insert_all(s, es.drop_last()).push(es.last()))
    }
}

/// True when `agent` names the same agent as `name`, ignoring case.
pub open spec fn same_agent(agent: Seq<char>, name: Seq<char>) -> bool {
    lower_of(agent) == lower_of(name)
}

/// The best `top_k` entries of `s` (all of them when there are fewer), by
/// importance and then timestamp, larger first.
pub open spec fn ranked_top(s: Seq<MemoryEntry>, top_k: nat) -> Seq<MemoryEntry> {
    let ranked = rank_sorted(s, true);
    if top_k < ranked.len() {
        ranked.take(top_k as int)
    } else {
        ranked
    }
}

/// The entries of one agent, best first, at most `top_k` of them.
pub open spec fn agent_memories(s: Seq<MemoryEntry>, name: Seq<char>, top_k: nat) -> Seq<
    MemoryEntry,
> {
    ranked_top(s.filter(|e: MemoryEntry| same_agent(e.agent@, name)), top_k)
}

/// The entries of `s` whose mark in `keep` is set, in order.
pub open spec fn selected(s: Seq<MemoryEntry>, keep: Seq<bool>) -> Seq<MemoryEntry>
    decreases s.len(),
{
    if s.len() == 0 {
        Seq::empty()
    } else {
        let rest = selected(s.drop_last(), keep.drop_last());
        if keep.last() {
            rest.push(s.last())
        } else {
            rest
        }
    }
}

/// Marks that hold exactly where the entry is of the named agent select what
/// the filter on the agent keeps, and their negation what it drops.
proof fn lemma_selected_is_filter(s: Seq<MemoryEntry>, keep: Seq<bool>, name: Seq<char>)
    requires
        keep.len() == s.len(),
        forall|i: int| 0 <= i < s.len() ==> keep[i] == same_agent(s[i].agent@, name),
    ensures
        selected(s, keep) == s.filter(|e: MemoryEntry| same_agent(e.agent@, name)),
        selected(s, Seq::new(keep.len(), |i: int| !keep[i])) == s.filter(
            |e: MemoryEntry| !same_agent(e.agent@, name),
        ),
    decreases s.len(),
{
    reveal(Seq::filter);
    if s.len() > 0 {
        lemma_selected_is_filter(s.drop_last(), keep.drop_last(), name);
        assert(Seq::new(keep.len(), |i: int| !keep[i]).drop_last() =~= Seq::new(
            keep.drop_last().len(),
            |i: int| !keep.drop_last()[i],
        ));
    }
}

/// The id of an entry made at `millis` milliseconds since the epoch.
pub open spec fn memory_id(millis: nat) -> Seq<char> {
    seq!['m', 'e', 'm', '_'] + decimal(millis)
}

/// An importance bit pattern brought into range: a pattern with the sign bit
/// set (a negative value) becomes 0.0, one above 1.0 becomes 1.0.
pub open spec fn clamped(bits: u32) -> u32 {
    if bits >= 0x8000_0000 {
        0
    } else if bits > IMPORTANCE_ONE {
        IMPORTANCE_ONE
    } else {
        bits
    }
}

/// Brings an importance bit pattern into range.
pub fn clamp_importance(bits: u32) -> (r: u32)
    ensures
        r == clamped(bits),
        r <= IMPORTANCE_ONE,
{
    if bits >= 0x8000_0000 {
        0
    } else if bits > IMPORTANCE_ONE {
        IMPORTANCE_ONE
    } else {
        bits
    }
}

/// Inserting entries one at a time into a log within the bound keeps exactly
/// the smaller of their total count and the bound.
pub proof fn lemma_insertions_bounded(s: Seq<MemoryEntry>, es: Seq<MemoryEntry>)
    requires
        s.len() <= MAX_MEMORIES,
    ensures
        insert_all(s, es).len() == if s.len() + es.len() < MAX_MEMORIES {
            (s.len() + es.len()) as int
        } else {
            MAX_MEMORIES as int
        },
    decreases es.len(),
{
    if es.len() > 0 {
        lemma_insertions_bounded(s, es.drop_last());
        let t = insert_all(s, es.drop_last()).push(es.last());
        if t.len() > MAX_MEMORIES {
            lemma_rank_sorted(t, false);
        }
    }
}

/// Inserting one more entry than the bound into an empty log, one at a time,
/// leaves exactly `MAX_MEMORIES` entries, all inserted ones, and none that was
/// dropped is newer than any kept.
pub proof fn lemma_fill_past_bound(es: Seq<MemoryEntry>)
    requires
        es.len() == MAX_MEMORIES + 1,
    ensures
        insert_all(Seq::empty(), es) == bounded(es),
        insert_all(Seq::empty(), es).len() == MAX_MEMORIES,
        insert_all(Seq::empty(), es).to_multiset().subset_of(es.to_multiset()),
        forall|i: int, x: MemoryEntry|
            0 <= i < MAX_MEMORIES && es.to_multiset().count(x) > insert_all(
                Seq::empty(),
                es,
            ).to_multiset().count(x) ==> insert_all(Seq::empty(), es)[i].timestamp >= x.timestamp,
{
    lemma_insert_all_within_bound(es.drop_last());
    assert(es.drop_last().push(es.last()) =~= es);
    lemma_bounded_keeps_newest(es);
}

/// Within the bound, inserting into an empty log keeps every entry in order.
pub proof fn lemma_insert_all_within_bound(es: Seq<MemoryEntry>)
    requires
        es.len() <= MAX_MEMORIES,
    ensures
        insert_all(Seq::empty(), es) == es,
    decreases es.len(),
{
    if es.len() > 0 {
        lemma_insert_all_within_bound(es.drop_last());
        assert(es.drop_last().push(es.last()) =~= es);
    }
}

/// When an insertion goes past the bound, exactly `MAX_MEMORIES` entries stay,
/// all taken from the log, and none that was dropped is newer than any kept.
pub proof fn lemma_bounded_keeps_newest(s: Seq<MemoryEntry>)
    requires
        s.len() > MAX_MEMORIES,
    ensures
        bounded(s).len() == MAX_MEMORIES,
        bounded(s).to_multiset().subset_of(s.to_multiset()),
        forall|i: int, x: MemoryEntry|
            0 <= i < MAX_MEMORIES && s.to_multiset().count(x) > bounded(s).to_multiset().count(x)
                ==> bounded(s)[i].timestamp >= x.timestamp,
{
    let p = rank_sorted(s, false);
    lemma_rank_sorted(s, false);
    let kept = p.take(MAX_MEMORIES as int);
    let dropped = p.skip(MAX_MEMORIES as int);
    assert(p =~= kept + dropped);
    vstd::seq_lib::lemma_multiset_commutative(kept, dropped);
    assert forall|i: int, x: MemoryEntry|
        0 <= i < MAX_MEMORIES && s.to_multiset().count(x) > bounded(s).to_multiset().count(
            x,
        ) implies bounded(s)[i].timestamp >= x.timestamp by {
        assert(dropped.to_multiset().count(x) > 0);
        assert(dropped.contains(x));
        let j = choose|j: int| 0 <= j < dropped.len() && dropped[j] == x;
        assert(p[MAX_MEMORIES + j] == x);
        assert(!outranks(p[MAX_MEMORIES + j], p[i], false));
    }
}

/// The memory log together with the knowledge graph, persisted as one document.
pub struct MemoryStore {
    pub memories: Vec<MemoryEntry>,
    pub graph: KnowledgeGraph,
}

impl MemoryStore {
    pub fn new() -> (r: MemoryStore)
        ensures
            r.memories@.len() == 0,
            r.graph.nodes@.len() == 0,
            r.graph.edges@.len() == 0,
    {
        MemoryStore { memories: Vec::new(), graph: KnowledgeGraph::new() }
    }

    /// Appends an entry and, past the bound, keeps only the newest
    /// `MAX_MEMORIES`, newest first.
    pub fn insert(&mut self, entry: MemoryEntry)
        ensures
            final(self).memories@ == bounded(old(self).memories@.push(entry)),
            final(self).graph == old(self).graph,
    {
        self.memories.push(entry);
        if self.memories.len() > MAX_MEMORIES {
            let mut all: Vec<MemoryEntry> = Vec::new();
            core::mem::swap(&mut all, &mut self.memories);
            proof {
                lemma_rank_sorted(all@, false);
            }
            let mut sorted = sort_ranked(all, false);
            sorted.truncate(MAX_MEMORIES);
            assert(sorted@ =~= rank_sorted(all@, false).take(MAX_MEMORIES as int));
            self.memories = sorted;
        }
    }

    /// Makes an entry for `agent` at `now_millis` milliseconds since the epoch
    /// (its timestamp in whole seconds), with the importance clamped into
    /// range, and inserts it. Refused, with the log unchanged, when the agent
    /// or the content is empty, or the content is too long.
    pub fn add_agent_memory(
        &mut self,
        agent: String,
        content: String,
        importance: u32,
        now_millis: u64,
    ) -> (r: Result<MemoryEntry, MemoryError>)
        ensures
            final(self).graph == old(self).graph,
            agent@.len() == 0 || content@.len() == 0 ==> r == Err::<MemoryEntry, MemoryError>(
                MemoryError::EmptyField,
            ) && final(self).memories@ == old(self).memories@,
            agent@.len() > 0 && content@.len() > MAX_CONTENT_CHARS ==> r == Err::<
                MemoryEntry,
                MemoryError,
            >(MemoryError::ContentTooLong) && final(self).memories@ == old(self).memories@,
            agent@.len() > 0 && content@.len() > 0 && content@.len() <= MAX_CONTENT_CHARS ==> {
                &&& r matches Ok(e)
                &&& e.id@ == memory_id(now_millis as nat)
                &&& e.agent == agent
                &&& e.content == content
                &&& e.timestamp == now_millis / 1000
                &&& e.importance == clamped(importance)
                &&& final(self).memories@ == bounded(old(self).memories@.push(e))
            },
    {
        if agent.as_str().is_empty() || content.as_str().is_empty() {
            return Err(MemoryError::EmptyField);
        }
        if content.as_str().unicode_len() > MAX_CONTENT_CHARS {
            return Err(MemoryError::ContentTooLong);
        }
        let digits = decimal_u64(now_millis);
        let mut id_chars: Vec<char> = vec!['m', 'e', 'm', '_'];
        let digit_chars = chars_of(digits.as_str());
        let mut i: usize = 0;
        let ghost prefix = id_chars@;
        while i < digit_chars.len()
            invariant
                i <= digit_chars@.len(),
                id_chars@ == prefix + digit_chars@.take(i as int),
            decreases digit_chars@.len() - i,
        {
            id_chars.push(digit_chars[i]);
            i = i + 1;
            assert(id_chars@ =~= prefix + digit_chars@.take(i as int));
        }
        assert(digit_chars@.take(i as int) =~= digit_chars@);
        assert(prefix =~= seq!['m', 'e', 'm', '_']);
        let entry = MemoryEntry {
            id: string_of(&id_chars),
            agent,
            content,
            timestamp: (now_millis / 1000) as i64,
            importance: clamp_importance(importance),
        };
        let kept = entry.duplicate();
        self.insert(kept);
        Ok(entry)
    }

    /// The entries of the agent with this name (ignoring case), by importance
    /// and then timestamp, larger first, at most `top_k` of them.
    pub fn get_agent_memories(&self, agent_name: &String, top_k: usize) -> (r: Vec<MemoryEntry>)
        ensures
            r@ == agent_memories(self.memories@, agent_name@, top_k as nat),
    {
        let keep = self.agent_marks(agent_name);
        proof {
            lemma_selected_is_filter(self.memories@, keep@, agent_name@);
        }
        self.top_selected(&keep, top_k)
    }

    /// For each entry, whether it is of the agent with this name, ignoring case.
    pub fn agent_marks(&self, agent_name: &String) -> (r: Vec<bool>)
        ensures
            r@.len() == self.memories@.len(),
            forall|i: int|
                0 <= i < r@.len() ==> r@[i] == same_agent(self.memories@[i].agent@, agent_name@),
    {
        let wanted = lowercase(agent_name.as_str());
        let mut marks: Vec<bool> = Vec::new();
        let mut i: usize = 0;
        while i < self.memories.len()
            invariant
                i <= self.memories@.len(),
                wanted@ == lower_of(agent_name@),
                marks@.len() == i,
                forall|k: int|
                    0 <= k < i ==> marks@[k] == same_agent(self.memories@[k].agent@, agent_name@),
            decreases self.memories@.len() - i,
        {
            let agent = lowercase(self.memories[i].agent.as_str());
            marks.push(agent.eq(&wanted));
            i = i + 1;
        }
        marks
    }

    /// The marked entries, by importance and then timestamp, larger first, at
    /// most `top_k` of them.
    pub fn top_selected(&self, keep: &Vec<bool>, top_k: usize) -> (r: Vec<MemoryEntry>)
        requires
            keep@.len() == self.memories@.len(),
        ensures
            r@ == ranked_top(selected(self.memories@, keep@), top_k as nat),
    {
        let mut chosen: Vec<MemoryEntry> = Vec::new();
        let mut i: usize = 0;
        while i < self.memories.len()
            invariant
                i <= self.memories@.len(),
                keep@.len() == self.memories@.len(),
                chosen@ == selected(self.memories@.take(i as int), keep@.take(i as int)),
            decreases self.memories@.len() - i,
        {
            assert(self.memories@.take(i + 1).drop_last() =~= self.memories@.take(i as int));
            assert(keep@.take(i + 1).drop_last() =~= keep@.take(i as int));
            if keep[i] {
                chosen.push(self.memories[i].duplicate());
            }
            i = i + 1;
        }
        assert(self.memories@.take(i as int) =~= self.memories@);
        assert(keep@.take(i as int) =~= keep@);
        let mut ranked = sort_ranked(chosen, true);
        ranked.truncate(top_k);
        assert(top_k as nat >= ranked@.len() ==> ranked@ =~= ranked_top(
            selected(self.memories@, keep@),
            top_k as nat,
        ));
        ranked
    }

    /// Removes every entry of the agent with this name (ignoring case) and
    /// returns how many were removed.
    pub fn clear_agent_memories(&mut self, agent_name: &String) -> (r: usize)
        ensures
            final(self).memories@ == old(self).memories@.filter(
                |e: MemoryEntry| !same_agent(e.agent@, agent_name@),
            ),
            r == old(self).memories@.len() - final(self).memories@.len(),
            final(self).graph == old(self).graph,
    {
        let marks = self.agent_marks(agent_name);
        let mut drop: Vec<bool> = Vec::new();
        let mut i: usize = 0;
        while i < marks.len()
            invariant
                i <= marks@.len(),
                drop@ == Seq::new(i as nat, |k: int| !marks@[k]),
            decreases marks@.len() - i,
        {
            drop.push(!marks[i]);
            i = i + 1;
            assert(drop@ =~= Seq::new(i as nat, |k: int| !marks@[k]));
        }
        proof {
            lemma_selected_is_filter(self.memories@, marks@, agent_name@);
        }
        self.retain_selected(&drop)
    }

    /// Keeps the marked entries, in order, and returns how many were removed.
    pub fn retain_selected(&mut self, keep: &Vec<bool>) -> (r: usize)
        requires
            keep@.len() == old(self).memories@.len(),
        ensures
            final(self).memories@ == selected(old(self).memories@, keep@),
            r == old(self).memories@.len() - final(self).memories@.len(),
            final(self).graph == old(self).graph,
    {
        let mut all: Vec<MemoryEntry> = Vec::new();
        core::mem::swap(&mut all, &mut self.memories);
        let ghost init = all@;
        let len_before = all.len();
        let mut rev: Vec<MemoryEntry> = Vec::new();
        while all.len() > 0
            invariant
                all@ == init.take(all@.len() as int),
                all@.len() <= init.len(),
                rev@.len() == init.len() - all@.len(),
                forall|k: int| 0 <= k < rev@.len() ==> rev@[k] == init[init.len() - 1 - k],
            decreases all@.len(),
        {
            let ghost n = all@.len() as int;
            let e = all.pop().unwrap();
            assert(all@ =~= init.take(n - 1));
            rev.push(e);
        }
        let mut kept: Vec<MemoryEntry> = Vec::new();
        let mut i: usize = 0;
        while rev.len() > 0
            invariant
                rev@.len() + i == init.len(),
                forall|k: int| 0 <= k < rev@.len() ==> rev@[k] == init[init.len() - 1 - k],
                kept@ == selected(init.take(i as int), keep@.take(i as int)),
                kept@.len() <= i,
                i <= init.len(),
                init.len() == len_before,
                keep@.len() == len_before,
            decreases rev@.len(),
        {
            let e = rev.pop().unwrap();
            assert(e == init[i as int]);
            assert(init.take(i + 1).drop_last() =~= init.take(i as int));
            assert(keep@.take(i + 1).drop_last() =~= keep@.take(i as int));
            if keep[i] {
                kept.push(e);
            }
            i = i + 1;
        }
        assert(init.take(i as int) =~= init);
        assert(keep@.take(i as int) =~= keep@);
        self.memories = kept;
        len_before - self.memories.len()
    }
}

} // verus!
