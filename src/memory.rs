use vstd::prelude::*;
use crate::json::text_eq;
use crate::value::Literal;

verus! {

/// One scope of memory: the values written under each key, in the order they
/// were written. Entries are only ever appended.
#[derive(Debug)]
pub struct MemoryScope {
    pub entries: Vec<(String, Literal)>,
}

/// Index of the last entry with key `k`, or -1 when there is none.
pub open spec fn last_index(s: Seq<(String, Literal)>, k: Seq<char>) -> int
    decreases s.len(),
{
    if s.len() == 0 {
        -1
    } else if s.last().0@ == k {
        s.len() - 1
    } else {
        last_index(s.drop_last(), k)
    }
}

/// Index of the first entry with key `k`, or -1 when there is none.
pub open spec fn first_index(s: Seq<(String, Literal)>, k: Seq<char>) -> int
    decreases s.len(),
{
    if s.len() == 0 {
        -1
    } else if first_index(s.drop_last(), k) >= 0 {
        first_index(s.drop_last(), k)
    } else if s.last().0@ == k {
        s.len() - 1
    } else {
        -1
    }
}

/// Whether the literal `r` is the entry at `i`, or absent when `i` is -1.
pub open spec fn entry_at(s: Seq<(String, Literal)>, i: int, r: Option<Literal>) -> bool {
    if i < 0 {
        r is None
    } else {
        &&& r is Some
        &&& r->Some_0.content_type@ == s[i].1.content_type@
        &&& r->Some_0.value() == s[i].1.value()
        &&& r->Some_0.interval == s[i].1.interval
    }
}

pub proof fn lemma_last_index_range(s: Seq<(String, Literal)>, k: Seq<char>)
    ensures
        -1 <= last_index(s, k) < s.len(),
        last_index(s, k) >= 0 ==> s[last_index(s, k)].0@ == k,
        last_index(s, k) < 0 ==> forall|i: int| 0 <= i < s.len() ==> #[trigger] s[i].0@ != k,
    decreases s.len(),
{
    if s.len() > 0 {
        lemma_last_index_range(s.drop_last(), k);
        assert forall|i: int| 0 <= i < s.len() - 1 implies #[trigger] s[i] == s.drop_last()[i] by {}
    }
}

pub proof fn lemma_first_index_range(s: Seq<(String, Literal)>, k: Seq<char>)
    ensures
        -1 <= first_index(s, k) < s.len(),
        first_index(s, k) >= 0 ==> s[first_index(s, k)].0@ == k,
        first_index(s, k) < 0 <==> last_index(s, k) < 0,
    decreases s.len(),
{
    if s.len() > 0 {
        lemma_first_index_range(s.drop_last(), k);
        assert(s.drop_last().len() == s.len() - 1);
    }
}

impl MemoryScope {
    pub fn new() -> (r: MemoryScope)
        ensures
            r.entries@.len() == 0,
    {
        MemoryScope { entries: Vec::new() }
    }

    /// Position of the last entry written under `key`.
    fn find_last(&self, key: &str) -> (r: Option<usize>)
        ensures
            match r {
                Some(i) => i as int == last_index(self.entries@, key@),
                None => last_index(self.entries@, key@) == -1,
            },
    {
        let mut i: usize = self.entries.len();
        assert(self.entries@.subrange(0, i as int) =~= self.entries@);
        while i > 0
            invariant
                i <= self.entries@.len(),
                last_index(self.entries@, key@) == last_index(self.entries@.subrange(0, i as int), key@),
            decreases i,
        {
            let ghost s = self.entries@.subrange(0, i as int);
            assert(s.drop_last() =~= self.entries@.subrange(0, i - 1));
            if text_eq(self.entries[i - 1].0.as_str(), key) {
                return Some(i - 1);
            }
            i -= 1;
        }
        None
    }

    /// Position of the first entry written under `key`.
    fn find_first(&self, key: &str) -> (r: Option<usize>)
        ensures
            match r {
                Some(i) => i as int == first_index(self.entries@, key@),
                None => first_index(self.entries@, key@) == -1,
            },
    {
        let mut i: usize = 0;
        while i < self.entries.len()
            invariant
                i <= self.entries@.len(),
                first_index(self.entries@.subrange(0, i as int), key@) == -1,
            decreases self.entries@.len() - i,
        {
            let ghost s = self.entries@.subrange(0, i + 1);
            assert(s.drop_last() =~= self.entries@.subrange(0, i as int));
            if text_eq(self.entries[i].0.as_str(), key) {
                proof { lemma_first_prefix(self.entries@, key@, i + 1); }
                return Some(i);
            }
            i += 1;
        }
        assert(self.entries@.subrange(0, i as int) =~= self.entries@);
        None
    }

    /// Whether some value was written under `key`.
    pub fn contains_key(&self, key: &str) -> (r: bool)
        ensures
            r == (last_index(self.entries@, key@) >= 0),
    {
        self.find_last(key).is_some()
    }

    /// The value written last under `key`.
    pub fn get(&self, key: &str) -> (r: Option<Literal>)
        ensures
            entry_at(self.entries@, last_index(self.entries@, key@), r),
    {
        proof { lemma_last_index_range(self.entries@, key@); }
        match self.find_last(key) {
            Some(i) => Some(self.entries[i].1.copy()),
            None => None,
        }
    }

    /// The value written first under `key`.
    pub fn first(&self, key: &str) -> (r: Option<Literal>)
        ensures
            entry_at(self.entries@, first_index(self.entries@, key@), r),
    {
        proof { lemma_first_index_range(self.entries@, key@); }
        match self.find_first(key) {
            Some(i) => Some(self.entries[i].1.copy()),
            None => None,
        }
    }

    /// Appends `value` under `key`.
    pub fn push(&mut self, key: String, value: Literal)
        ensures
            final(self).entries@ == old(self).entries@.push((key, value)),
    {
        self.entries.push((key, value));
    }
}

proof fn lemma_first_prefix(s: Seq<(String, Literal)>, k: Seq<char>, n: int)
    requires
        0 < n <= s.len(),
        first_index(s.subrange(0, n - 1), k) == -1,
        s[n - 1].0@ == k,
    ensures
        first_index(s, k) == n - 1,
    decreases s.len() - n,
{
    assert(s.subrange(0, n).drop_last() =~= s.subrange(0, n - 1));
    if n < s.len() {
        lemma_first_extend(s, k, n);
    } else {
        assert(s.subrange(0, n) =~= s);
    }
}

proof fn lemma_first_extend(s: Seq<(String, Literal)>, k: Seq<char>, n: int)
    requires
        0 < n <= s.len(),
        first_index(s.subrange(0, n), k) >= 0,
    ensures
        first_index(s, k) == first_index(s.subrange(0, n), k),
    decreases s.len() - n,
{
    if n < s.len() {
        assert(s.subrange(0, n + 1).drop_last() =~= s.subrange(0, n));
        lemma_first_extend(s, k, n + 1);
    } else {
        assert(s.subrange(0, n) =~= s);
    }
}

/// Memory as the interpreter sees it: metadata about the conversing
/// identity, values remembered during this turn, and values from earlier
/// turns.
#[derive(Debug)]
pub struct Memory {
    pub metadata: MemoryScope,
    pub current: MemoryScope,
    pub past: MemoryScope,
}

/// The value that a bare identifier names in memory: the last value under
/// that key in the first scope, of metadata, current and past, that holds it.
pub open spec fn resolved_index(m: &Memory, k: Seq<char>) -> (int, int) {
    if last_index(m.metadata.entries@, k) >= 0 {
        (0, last_index(m.metadata.entries@, k))
    } else if last_index(m.current.entries@, k) >= 0 {
        (1, last_index(m.current.entries@, k))
    } else if last_index(m.past.entries@, k) >= 0 {
        (2, last_index(m.past.entries@, k))
    } else {
        (-1, -1)
    }
}

impl Memory {
    pub fn new() -> (r: Memory)
        ensures
            r.metadata.entries@.len() == 0,
            r.current.entries@.len() == 0,
            r.past.entries@.len() == 0,
    {
        Memory { metadata: MemoryScope::new(), current: MemoryScope::new(), past: MemoryScope::new() }
    }

    /// Appends `value` under `key` in the current scope; the other scopes do
    /// not change.
    pub fn remember(&mut self, key: String, value: Literal)
        ensures
            final(self).current.entries@ == old(self).current.entries@.push((key, value)),
            final(self).metadata.entries@ == old(self).metadata.entries@,
            final(self).past.entries@ == old(self).past.entries@,
    {
        self.current.push(key, value);
    }

    /// The value that the bare identifier `name` names: metadata first, then
    /// the current turn, then earlier turns.
    pub fn search_var(&self, name: &str) -> (r: Option<Literal>)
        ensures
            ({
                let (scope, i) = resolved_index(self, name@);
                &&& scope == -1 ==> r is None
                &&& scope == 0 ==> entry_at(self.metadata.entries@, i, r)
                &&& scope == 1 ==> entry_at(self.current.entries@, i, r)
                &&& scope == 2 ==> entry_at(self.past.entries@, i, r)
            }),
    {
        if self.metadata.contains_key(name) {
            self.metadata.get(name)
        } else if self.current.contains_key(name) {
            self.current.get(name)
        } else if self.past.contains_key(name) {
            self.past.get(name)
        } else {
            None
        }
    }
}

/// A bare identifier resolves to the metadata value whenever metadata holds
/// the key, whatever the current and past scopes hold.
pub proof fn law_metadata_first(m: &Memory, k: Seq<char>)
    requires
        last_index(m.metadata.entries@, k) >= 0,
    ensures
        resolved_index(m, k) == (0int, last_index(m.metadata.entries@, k)),
{
}

/// Remembering `v1` and then `v2` under a key that the current scope did not
/// hold: the first value under it is `v1` and the last is `v2`.
pub proof fn law_remember_first_last(cur: Seq<(String, Literal)>, k1: String, v1: Literal, k2: String, v2: Literal)
    requires
        k1@ == k2@,
        last_index(cur, k1@) == -1,
    ensures
        ({
            let after = cur.push((k1, v1)).push((k2, v2));
            &&& first_index(after, k1@) == cur.len()
            &&& after[first_index(after, k1@)].1 == v1
            &&& last_index(after, k1@) == cur.len() + 1
            &&& after[last_index(after, k1@)].1 == v2
        }),
{
    let after = cur.push((k1, v1)).push((k2, v2));
    lemma_first_index_range(cur, k1@);
    assert(after.drop_last() =~= cur.push((k1, v1)));
    assert(cur.push((k1, v1)).drop_last() =~= cur);
    assert(first_index(cur, k1@) == -1);
    assert(first_index(cur.push((k1, v1)), k1@) == cur.len() as int);
    assert(first_index(after, k1@) == cur.len() as int);
}

} // verus!
