//! Keyed lookup: every catalogue record, label and choice list is found by the
//! first entry whose key matches.
use vstd::prelude::*;
use crate::types::Characteristic;

verus! {

/// A record found by a string key (a catalogue id, a label key, a choice key).
pub trait Keyed {
    spec fn key_view(&self) -> Seq<char>;

    fn key(&self) -> (r: &str)
        ensures
            r@ == self.key_view();
}

impl<V> Keyed for (String, V) {
    open spec fn key_view(&self) -> Seq<char> {
        self.0@
    }

    fn key(&self) -> (r: &str) {
        self.0.as_str()
    }
}

/// The index of the first entry keyed `key`.
pub open spec fn find_index<T: Keyed>(s: Seq<T>, key: Seq<char>) -> Option<int>
    decreases s.len(),
{
    if s.len() == 0 {
        None
    } else {
        match find_index(s.drop_last(), key) {
            Some(i) => Some(i),
            None => if s.last().key_view() == key { Some(s.len() - 1) } else { None },
        }
    }
}

/// The first entry keyed `key`.
pub open spec fn find<T: Keyed>(s: Seq<T>, key: Seq<char>) -> Option<T> {
    match find_index(s, key) {
        Some(i) => Some(s[i]),
        None => None,
    }
}

pub proof fn lemma_find_index_bounds<T: Keyed>(s: Seq<T>, key: Seq<char>)
    ensures
        find_index(s, key) matches Some(i) ==> 0 <= i < s.len() && s[i].key_view() == key,
        find_index(s, key) is None ==> forall|j: int| 0 <= j < s.len() ==> #[trigger] s[j].key_view() != key,
    decreases s.len(),
{
    if s.len() > 0 {
        lemma_find_index_bounds(s.drop_last(), key);
        if find_index(s.drop_last(), key) is None {
            assert forall|j: int| 0 <= j < s.len() - 1 implies #[trigger] s[j].key_view() != key by {
                assert(s.drop_last()[j] == s[j]);
            }
        }
    }
}

pub proof fn lemma_find_index_prefix<T: Keyed>(s: Seq<T>, k: int, key: Seq<char>)
    requires
        0 <= k <= s.len(),
        find_index(s.take(k), key) is Some,
    ensures
        find_index(s, key) == find_index(s.take(k), key),
    decreases s.len(),
{
    if k < s.len() {
        assert(s.drop_last().take(k) =~= s.take(k));
        lemma_find_index_prefix(s.drop_last(), k, key);
    } else {
        assert(s.take(k) =~= s);
    }
}

/// The index of the first entry keyed `key`.
pub fn position<T: Keyed>(v: &Vec<T>, key: &str) -> (r: Option<usize>)
    ensures
        r matches Some(i) ==> find_index(v@, key@) == Some(i as int),
        r is None ==> find_index(v@, key@) is None,
{
    let mut i: usize = 0;
    while i < v.len()
        invariant
            i <= v.len(),
            find_index(v@.take(i as int), key@) is None,
        decreases v.len() - i,
    {
        proof {
            assert(v@.take(i + 1).drop_last() =~= v@.take(i as int));
        }
        if crate::text::str_eq(v[i].key(), key) {
            proof {
                lemma_find_index_prefix(v@, i + 1, key@);
            }
            return Some(i);
        }
        i += 1;
    }
    assert(v@.take(v.len() as int) =~= v@);
    None
}

/// The first entry keyed `key`.
pub fn find_by_key<'a, T: Keyed>(v: &'a Vec<T>, key: &str) -> (r: Option<&'a T>)
    ensures
        r matches Some(x) ==> find(v@, key@) == Some(*x),
        r is None ==> find(v@, key@) is None,
{
    proof {
        lemma_find_index_bounds(v@, key@);
    }
    match position(v, key) {
        Some(i) => Some(&v[i]),
        None => None,
    }
}

/// Whether a list of strings holds `key`.
pub open spec fn contains_str(s: Seq<String>, key: Seq<char>) -> bool {
    exists|i: int| 0 <= i < s.len() && (#[trigger] s[i])@ == key
}

/// Whether a list of strings holds `key`.
pub fn has_str(v: &Vec<String>, key: &str) -> (r: bool)
    ensures
        r == contains_str(v@, key@),
{
    let mut i: usize = 0;
    while i < v.len()
        invariant
            i <= v.len(),
            forall|j: int| 0 <= j < i ==> (#[trigger] v@[j])@ != key@,
        decreases v.len() - i,
    {
        if crate::text::str_eq(v[i].as_str(), key) {
            return true;
        }
        i += 1;
    }
    false
}

/// The value recorded for `c` in a per-Characteristic list; the first entry
/// wins.
pub open spec fn char_entry<V>(s: Seq<(Characteristic, V)>, c: Characteristic) -> Option<V>
    decreases s.len(),
{
    if s.len() == 0 {
        None
    } else {
        match char_entry(s.drop_last(), c) {
            Some(v) => Some(v),
            None => if s.last().0 == c { Some(s.last().1) } else { None },
        }
    }
}

pub proof fn lemma_char_entry_prefix<V>(s: Seq<(Characteristic, V)>, k: int, c: Characteristic)
    requires
        0 <= k <= s.len(),
        char_entry(s.take(k), c) is Some,
    ensures
        char_entry(s, c) == char_entry(s.take(k), c),
    decreases s.len(),
{
    if k < s.len() {
        assert(s.drop_last().take(k) =~= s.take(k));
        lemma_char_entry_prefix(s.drop_last(), k, c);
    } else {
        assert(s.take(k) =~= s);
    }
}

/// The value recorded for `c`, if any.
pub fn char_get<V: Copy>(v: &Vec<(Characteristic, V)>, c: Characteristic) -> (r: Option<V>)
    ensures
        r == char_entry(v@, c),
{
    let mut i: usize = 0;
    while i < v.len()
        invariant
            i <= v.len(),
            char_entry(v@.take(i as int), c) is None,
        decreases v.len() - i,
    {
        proof {
            assert(v@.take(i + 1).drop_last() =~= v@.take(i as int));
        }
        if v[i].0 == c {
            proof {
                lemma_char_entry_prefix(v@, i + 1, c);
            }
            return Some(v[i].1);
        }
        i += 1;
    }
    assert(v@.take(v.len() as int) =~= v@);
    None
}

/// The text recorded for `c`, if any.
pub fn char_text<'a>(v: &'a Vec<(Characteristic, String)>, c: Characteristic) -> (r: Option<&'a String>)
    ensures
        r matches Some(t) ==> char_entry(v@, c) == Some(*t),
        r is None ==> char_entry(v@, c) is None,
{
    let mut i: usize = 0;
    while i < v.len()
        invariant
            i <= v.len(),
            char_entry(v@.take(i as int), c) is None,
        decreases v.len() - i,
    {
        proof {
            assert(v@.take(i + 1).drop_last() =~= v@.take(i as int));
        }
        if v[i].0 == c {
            proof {
                lemma_char_entry_prefix(v@, i + 1, c);
            }
            return Some(&v[i].1);
        }
        i += 1;
    }
    assert(v@.take(v.len() as int) =~= v@);
    None
}

} // verus!
