//! A YAML-like structured value and the note's frontmatter: an ordered
//! mapping of string keys to such values.

use vstd::prelude::*;
use crate::path::clone_string;

verus! {

/// A structured metadata value: a tagged union mirroring a YAML-like data
/// model.
#[derive(Debug, PartialEq, Eq)]
pub enum Value {
    Null,
    Bool(bool),
    Num(i64),
    Str(String),
    List(Vec<Value>),
    Dict(Vec<(String, Value)>),
}

/// A note's frontmatter: string keys mapped to structured values, in
/// declaration order. A key may occur at most once in well-formed input;
/// lookups take the first occurrence.
#[derive(Debug, PartialEq, Eq)]
pub struct Frontmatter {
    pub entries: Vec<(String, Value)>,
}

/// The index of the first entry whose key reads `key`, if any.
pub open spec fn spec_find(entries: Seq<(String, Value)>, key: Seq<char>) -> Option<int>
    decreases entries.len(),
{
    if entries.len() == 0 {
        None
    } else if entries[0].0@ == key {
        Some(0)
    } else {
        match spec_find(entries.skip(1), key) {
            Some(i) => Some(i + 1),
            None => None,
        }
    }
}

/// The value of the first entry whose key reads `key`, if any.
pub open spec fn spec_get(entries: Seq<(String, Value)>, key: Seq<char>) -> Option<Value> {
    match spec_find(entries, key) {
        Some(i) => Some(entries[i].1),
        None => None,
    }
}

/// The text of the entry at `key` when it holds a string; absent and
/// non-string entries give `None`.
pub open spec fn spec_fm_str(fm: Frontmatter, key: Seq<char>) -> Option<Seq<char>> {
    match spec_get(fm.entries@, key) {
        Some(Value::Str(s)) => Some(s@),
        _ => None,
    }
}

/// A found index lies in range and its entry bears the key.
pub proof fn lemma_find_in_range(entries: Seq<(String, Value)>, key: Seq<char>)
    ensures
        match spec_find(entries, key) {
            Some(i) => 0 <= i < entries.len() && entries[i].0@ == key,
            None => true,
        },
    decreases entries.len(),
{
    if entries.len() > 0 && entries[0].0@ != key {
        lemma_find_in_range(entries.skip(1), key);
    }
}

/// Scanning past `i` unmatched entries leaves the found index shifted by
/// `i`.
proof fn lemma_find_after(entries: Seq<(String, Value)>, key: Seq<char>, i: int)
    requires
        0 <= i <= entries.len(),
        forall|j: int| 0 <= j < i ==> entries[j].0@ != key,
    ensures
        spec_find(entries, key) == match spec_find(entries.skip(i), key) {
            Some(k) => Some(k + i),
            None => None::<int>,
        },
    decreases i,
{
    if i == 0 {
        assert(entries.skip(0) =~= entries);
    } else {
        lemma_find_after(entries, key, i - 1);
        let t = entries.skip(i - 1);
        assert(t[0] == entries[i - 1]);
        assert(t.skip(1) =~= entries.skip(i));
    }
}

impl Frontmatter {
    /// An empty frontmatter.
    pub fn new() -> (r: Frontmatter)
        ensures
            r.entries@ =~= Seq::<(String, Value)>::empty(),
    {
        Frontmatter { entries: Vec::new() }
    }

    /// Looks `key` up: the value of the first entry with that key.
    pub fn get<'a>(&'a self, key: &str) -> (r: Option<&'a Value>)
        ensures
            match r {
                Some(v) => spec_get(self.entries@, key@) == Some(*v),
                None => spec_get(self.entries@, key@) is None,
            },
    {
        let n = self.entries.len();
        let mut i: usize = 0;
        while i < n
            invariant
                0 <= i <= n,
                n == self.entries@.len(),
                forall|j: int| 0 <= j < i ==> self.entries@[j].0@ != key@,
            decreases n - i,
        {
            if str_equal(&self.entries[i].0, key) {
                proof {
                    lemma_find_after(self.entries@, key@, i as int);
                    assert(self.entries@.skip(i as int)[0] == self.entries@[i as int]);
                }
                return Some(&self.entries[i].1);
            }
            i += 1;
        }
        proof {
            lemma_find_after(self.entries@, key@, n as int);
            assert(self.entries@.skip(n as int) =~= Seq::<(String, Value)>::empty());
        }
        None
    }

    /// The text at `key` when it holds a string; absent and non-string
    /// entries give `None`.
    pub fn get_str(&self, key: &str) -> (r: Option<String>)
        ensures
            match r {
                Some(s) => spec_fm_str(*self, key@) == Some(s@),
                None => spec_fm_str(*self, key@) is None,
            },
    {
        match self.get(key) {
            Some(v) => match v {
                Value::Str(s) => Some(clone_string(s)),
                _ => None,
            },
            None => None,
        }
    }

    /// Writes `val` under `key`: the first entry with that key keeps its
    /// place (and its stored key) and takes the new value; with no such
    /// entry, a new one is appended.
    pub fn insert(&mut self, key: String, val: Value)
        ensures
            final(self).entries@ == match spec_find(old(self).entries@, key@) {
                Some(i) => old(self).entries@.update(
                    i,
                    (old(self).entries@[i].0, val),
                ),
                None => old(self).entries@.push((key, val)),
            },
    {
        let n = self.entries.len();
        let mut i: usize = 0;
        while i < n
            invariant
                0 <= i <= n,
                n == self.entries@.len(),
                *self == *old(self),
                forall|j: int| 0 <= j < i ==> self.entries@[j].0@ != key@,
            decreases n - i,
        {
            if str_equal(&self.entries[i].0, key.as_str()) {
                proof {
                    lemma_find_after(self.entries@, key@, i as int);
                    assert(self.entries@.skip(i as int)[0] == self.entries@[i as int]);
                }
                let ghost before = self.entries@;
                let pair = self.entries.remove(i);
                self.entries.insert(i, (pair.0, val));
                assert(self.entries@ =~= before.update(i as int, (before[i as int].0, val)));
                return ;
            }
            i += 1;
        }
        proof {
            lemma_find_after(self.entries@, key@, n as int);
            assert(self.entries@.skip(n as int) =~= Seq::<(String, Value)>::empty());
        }
        self.entries.push((key, val));
    }
}

/// Decides whether `a` reads `b`.
pub fn str_equal(a: &String, b: &str) -> (r: bool)
    ensures
        r == (a@ == b@),
{
    let n = a.as_str().unicode_len();
    let nb = b.unicode_len();
    if n != nb {
        return false;
    }
    let mut i: usize = 0;
    while i < n
        invariant
            0 <= i <= n,
            n == a@.len(),
            n == b@.len(),
            forall|j: int| 0 <= j < i ==> a@[j] == b@[j],
        decreases n - i,
    {
        if a.as_str().get_char(i) != b.get_char(i) {
            assert(a@ != b@) by {
                assert(a@[i as int] != b@[i as int]);
            }
            return false;
        }
        i += 1;
    }
    assert(a@ =~= b@);
    true
}

} // verus!
