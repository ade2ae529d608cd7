//! Name resolution for the export: catalogue names with their chosen
//! parameters folded into the `{placeholder}` templates, Art abbreviations,
//! and the inline list separator.
use vstd::prelude::*;
use crate::export::{escape_cell, escape_spec, id_read, join, join_spec, key_read, label_text, strings_view, Doc};
use crate::export::sections::name_text;
use crate::ruleset::{abbreviation_spec, display_name_spec, LocalizedRuleset, Ruleset};
use crate::text::{chars_of, concat, owned, push_char, seq_lt, str_eq, str_lt, string_of};
use crate::types::{lookup, lookup_pair, pairs_view, MightScore};

verus! {

/// Where `c` first stands in `t` (`t.len()` when it does not).
pub open spec fn index_of(t: Seq<char>, c: char) -> int
    decreases t.len(),
{
    if t.len() == 0 {
        0
    } else if t[0] == c {
        0
    } else {
        1 + index_of(t.drop_first(), c)
    }
}

proof fn lemma_index_of(t: Seq<char>, c: char)
    ensures
        0 <= index_of(t, c) <= t.len(),
        index_of(t, c) < t.len() ==> t[index_of(t, c)] == c,
        forall|j: int| 0 <= j < index_of(t, c) ==> t[j] != c,
    decreases t.len(),
{
    if t.len() > 0 && t[0] != c {
        lemma_index_of(t.drop_first(), c);
        assert forall|j: int| 0 <= j < index_of(t, c) implies t[j] != c by {
            if j > 0 {
                assert(t[j] == t.drop_first()[j - 1]);
            }
        }
    }
}

/// A position where `c` stands with no `c` before it is where `c` first
/// stands; with no `c` at all, the length is.
proof fn lemma_index_of_at(t: Seq<char>, c: char, p: int)
    requires
        0 <= p <= t.len(),
        p < t.len() ==> t[p] == c,
        forall|j: int| 0 <= j < p ==> t[j] != c,
    ensures
        index_of(t, c) == p,
{
    lemma_index_of(t, c);
}

/// What a placeholder for `key` turns into: the value `vals` holds for it,
/// or, when it holds none, the slot label for `key` in parentheses.
pub open spec fn slot_fill(vals: Seq<(Seq<char>, Seq<char>)>, labels: Seq<(String, String)>, key: Seq<char>) -> Seq<char> {
    match lookup(vals, key) {
        Some(v) => v,
        None => seq!['('] + label_text(labels, "param-label-"@ + key) + seq![')'],
    }
}

/// `t` with each `{key}` placeholder filled (see [`slot_fill`]); a `{` with
/// no `}` after it stays as it is.
pub open spec fn fill_spec(t: Seq<char>, vals: Seq<(Seq<char>, Seq<char>)>, labels: Seq<(String, String)>) -> Seq<char>
    decreases t.len(),
{
    let open = index_of(t, '{');
    if open < 0 || open >= t.len() {
        t
    } else {
        let after = t.skip(open + 1);
        let close = index_of(after, '}');
        if close < 0 || close >= after.len() {
            t.take(open) + seq!['{'] + fill_spec(after, vals, labels)
        } else {
            t.take(open) + slot_fill(vals, labels, after.take(close)) + fill_spec(after.skip(close + 1), vals, labels)
        }
    }
}

/// Whether `t` holds a complete `{key}` placeholder.
pub open spec fn names_slot(t: Seq<char>, key: Seq<char>) -> bool
    decreases t.len(),
{
    let open = index_of(t, '{');
    if open < 0 || open >= t.len() {
        false
    } else {
        let after = t.skip(open + 1);
        let close = index_of(after, '}');
        if close < 0 || close >= after.len() {
            names_slot(after, key)
        } else {
            after.take(close) == key || names_slot(after.skip(close + 1), key)
        }
    }
}

/// Whether a placeholder of `t` takes the value at `j`: the first value under
/// its key, and some placeholder names that key.
pub open spec fn slot_taken(t: Seq<char>, vals: Seq<(Seq<char>, Seq<char>)>, j: int) -> bool {
    &&& names_slot(t, vals[j].0)
    &&& forall|i: int| 0 <= i < j ==> #[trigger] vals[i].0 != vals[j].0
}

/// The first `k` values, less those a placeholder of `t` takes, in order.
pub open spec fn leftover(t: Seq<char>, vals: Seq<(Seq<char>, Seq<char>)>, k: int) -> Seq<Seq<char>>
    decreases k,
{
    if k <= 0 {
        Seq::empty()
    } else {
        leftover(t, vals, k - 1) + if slot_taken(t, vals, k - 1) { Seq::empty() } else { seq![vals[k - 1].1] }
    }
}

/// A template filled from `vals`: escaped for the document, each placeholder
/// filled, and the values no placeholder took appended in parentheses,
/// separated by the list separator, so none is dropped.
pub open spec fn filled_template(template: Seq<char>, vals: Seq<(Seq<char>, Seq<char>)>, labels: Seq<(String, String)>) -> Seq<char> {
    let t = escape_spec(template);
    let rest = leftover(t, vals, vals.len() as int);
    fill_spec(t, vals, labels) + if rest.len() == 0 {
        Seq::<char>::empty()
    } else {
        " ("@ + join_spec(rest, label_text(labels, "restricted-xp-list-separator"@) + " "@) + ")"@
    }
}

proof fn lemma_leftover_holds(t: Seq<char>, vals: Seq<(Seq<char>, Seq<char>)>, k: int, j: int)
    requires
        0 <= j < k <= vals.len(),
        !slot_taken(t, vals, j),
    ensures
        leftover(t, vals, k).contains(vals[j].1),
    decreases k,
{
    if j < k - 1 {
        lemma_leftover_holds(t, vals, k - 1, j);
        let prev = leftover(t, vals, k - 1);
        let i = choose|i: int| 0 <= i < prev.len() && prev[i] == vals[j].1;
        assert(leftover(t, vals, k)[i] == vals[j].1);
    } else {
        let prev = leftover(t, vals, k - 1);
        assert(leftover(t, vals, k)[prev.len() as int] == vals[j].1);
    }
}

/// No chosen parameter is silently dropped: every value is either the one a
/// placeholder naming its key takes (the first value under that key), or it
/// is among the leftovers the filled template appends in parentheses.
pub proof fn law_no_chosen_parameter_is_dropped(template: Seq<char>, vals: Seq<(Seq<char>, Seq<char>)>, j: int)
    requires
        0 <= j < vals.len(),
    ensures
        slot_taken(escape_spec(template), vals, j)
            || leftover(escape_spec(template), vals, vals.len() as int).contains(vals[j].1),
{
    if !slot_taken(escape_spec(template), vals, j) {
        lemma_leftover_holds(escape_spec(template), vals, vals.len() as int, j);
    }
}

/// The keys a parameter value swallowed are gone from the display values:
/// no key that some value's template filled from a sibling remains.
pub proof fn law_swallowed_keys_are_dropped(lrs: &LocalizedRuleset, labels: Seq<(String, String)>, params: Seq<(Seq<char>, Seq<char>)>, i: int)
    requires
        0 <= i < display_values(lrs, labels, params).len(),
    ensures
        !swallowed_keys(lrs, params, params.len() as int).contains(display_values(lrs, labels, params)[i].0),
{
    lemma_kept_values_avoid(
        rendered_values(lrs, labels, params, params.len() as int),
        swallowed_keys(lrs, params, params.len() as int),
        i,
    );
}

proof fn lemma_kept_values_avoid(ps: Seq<(Seq<char>, Seq<char>)>, gone: Seq<Seq<char>>, i: int)
    requires
        0 <= i < kept_values(ps, gone).len(),
    ensures
        !gone.contains(kept_values(ps, gone)[i].0),
    decreases ps.len(),
{
    if ps.len() > 0 {
        let prev = kept_values(ps.drop_last(), gone);
        if i < prev.len() {
            lemma_kept_values_avoid(ps.drop_last(), gone, i);
            assert(kept_values(ps, gone)[i] == prev[i]);
        }
    }
}

/// The first entry under `key` is what `lookup` finds.
proof fn lemma_lookup_at(ps: Seq<(Seq<char>, Seq<char>)>, key: Seq<char>, j: int)
    requires
        0 <= j < ps.len(),
        ps[j].0 == key,
        forall|i: int| 0 <= i < j ==> #[trigger] ps[i].0 != key,
    ensures
        lookup(ps, key) == Some(ps[j].1),
    decreases ps.len(),
{
    if j < ps.len() - 1 {
        lemma_lookup_at(ps.drop_last(), key, j);
    } else {
        lemma_lookup_absent(ps.drop_last(), key);
    }
}

/// With no entry under `key`, `lookup` finds nothing.
proof fn lemma_lookup_absent(ps: Seq<(Seq<char>, Seq<char>)>, key: Seq<char>)
    requires
        forall|i: int| 0 <= i < ps.len() ==> #[trigger] ps[i].0 != key,
    ensures
        lookup(ps, key) is None,
    decreases ps.len(),
{
    if ps.len() > 0 {
        lemma_lookup_absent(ps.drop_last(), key);
    }
}

/// The characters `cs[from..to]` as a string.
fn slice_string(cs: &Vec<char>, from: usize, to: usize) -> (r: String)
    requires
        from <= to <= cs@.len(),
    ensures
        r@ == cs@.subrange(from as int, to as int),
{
    let mut s = String::new();
    let mut i = from;
    while i < to
        invariant
            from <= i <= to <= cs@.len(),
            s@ == cs@.subrange(from as int, i as int),
        decreases to - i,
    {
        push_char(&mut s, cs[i]);
        proof {
            assert(cs@.subrange(from as int, i + 1) =~= cs@.subrange(from as int, i as int).push(cs@[i as int]));
        }
        i += 1;
    }
    s
}

/// The first position at or after `from` holding `c`, if any.
fn find_char(cs: &Vec<char>, from: usize, c: char) -> (r: Option<usize>)
    requires
        from <= cs@.len(),
    ensures
        match r {
            Some(p) => from <= p < cs@.len() && cs@[p as int] == c && forall|j: int| from <= j < p ==> cs@[j] != c,
            None => forall|j: int| from <= j < cs@.len() ==> cs@[j] != c,
        },
{
    let mut i = from;
    while i < cs.len()
        invariant
            from <= i <= cs@.len(),
            forall|j: int| from <= j < i ==> cs@[j] != c,
        decreases cs.len() - i,
    {
        if cs[i] == c {
            return Some(i);
        }
        i += 1;
    }
    None
}

/// The position of the first pair keyed `key`.
fn key_index(values: &Vec<(String, String)>, key: &str) -> (r: Option<usize>)
    ensures
        match r {
            Some(j) => j < values@.len() && values@[j as int].0@ == key@
                && forall|i: int| 0 <= i < j ==> #[trigger] values@[i].0@ != key@,
            None => forall|i: int| 0 <= i < values@.len() ==> #[trigger] values@[i].0@ != key@,
        },
{
    let mut i: usize = 0;
    while i < values.len()
        invariant
            i <= values@.len(),
            forall|k: int| 0 <= k < i ==> #[trigger] values@[k].0@ != key@,
        decreases values.len() - i,
    {
        if str_eq(values[i].0.as_str(), key) {
            return Some(i);
        }
        i += 1;
    }
    None
}

/// How many of the leading `keys` sort before `key`.
pub open spec fn rank(keys: Seq<Seq<char>>, key: Seq<char>) -> int
    decreases keys.len(),
{
    if keys.len() == 0 {
        0
    } else if seq_lt(keys[0], key) {
        1 + rank(keys.drop_first(), key)
    } else {
        0
    }
}

proof fn lemma_rank(keys: Seq<Seq<char>>, key: Seq<char>)
    ensures
        0 <= rank(keys, key) <= keys.len(),
        forall|j: int| 0 <= j < rank(keys, key) ==> seq_lt(#[trigger] keys[j], key),
        rank(keys, key) < keys.len() ==> !seq_lt(keys[rank(keys, key)], key),
    decreases keys.len(),
{
    if keys.len() > 0 && seq_lt(keys[0], key) {
        lemma_rank(keys.drop_first(), key);
        assert forall|j: int| 0 <= j < rank(keys, key) implies seq_lt(#[trigger] keys[j], key) by {
            if j > 0 {
                assert(keys[j] == keys.drop_first()[j - 1]);
            }
        }
    }
}

/// `key` put into an ascending list at its place, unless the key there
/// already is `key`.
pub open spec fn insert_key(keys: Seq<Seq<char>>, key: Seq<char>) -> Seq<Seq<char>> {
    let i = rank(keys, key);
    if i < keys.len() && keys[i] == key { keys } else { keys.insert(i, key) }
}

/// The keys of the complete placeholders of `t`, put one by one into `acc`
/// (see [`insert_key`]), so ascending and each once; the scan stops at a `{`
/// with no `}` after it.
pub open spec fn placeholder_fold(t: Seq<char>, acc: Seq<Seq<char>>) -> Seq<Seq<char>>
    decreases t.len(),
{
    let open = index_of(t, '{');
    if open < 0 || open >= t.len() {
        acc
    } else {
        let after = t.skip(open + 1);
        let close = index_of(after, '}');
        if close < 0 || close >= after.len() {
            acc
        } else {
            placeholder_fold(after.skip(close + 1), insert_key(acc, after.take(close)))
        }
    }
}

/// A parameter value as the document shows it: its display name when it is
/// a catalogue id, else itself, escaped.
pub open spec fn param_text(lrs: &LocalizedRuleset, raw: Seq<char>) -> Seq<char> {
    escape_spec(name_text(lrs, raw))
}

/// The placeholder keys of a value's own template, ascending, each once.
pub open spec fn value_keys(lrs: &LocalizedRuleset, value: Seq<char>) -> Seq<Seq<char>> {
    placeholder_fold(name_text(lrs, value), Seq::empty())
}

/// The sibling fills for `keys`: each key a sibling parameter holds, with
/// that sibling's display value.
pub open spec fn fills_spec(lrs: &LocalizedRuleset, params: Seq<(Seq<char>, Seq<char>)>, keys: Seq<Seq<char>>) -> Seq<(Seq<char>, Seq<char>)>
    decreases keys.len(),
{
    if keys.len() == 0 {
        Seq::empty()
    } else {
        fills_spec(lrs, params, keys.drop_last()) + match lookup(params, keys.last()) {
            Some(sibling) => seq![(keys.last(), param_text(lrs, sibling))],
            None => Seq::empty(),
        }
    }
}

/// A parameter value rendered as a full instance name, its own placeholders
/// filled from its siblings.
pub open spec fn rendered_text(lrs: &LocalizedRuleset, labels: Seq<(String, String)>, params: Seq<(Seq<char>, Seq<char>)>, value: Seq<char>) -> Seq<char> {
    filled_template(name_text(lrs, value), fills_spec(lrs, params, value_keys(lrs, value)), labels)
}

/// Where `key` first stands among the keys of `ps`, if it does.
pub open spec fn key_position(ps: Seq<(Seq<char>, Seq<char>)>, key: Seq<char>) -> Option<int>
    decreases ps.len(),
{
    if ps.len() == 0 {
        None
    } else {
        match key_position(ps.drop_last(), key) {
            Some(j) => Some(j),
            None => if ps.last().0 == key { Some(ps.len() - 1) } else { None },
        }
    }
}

proof fn lemma_key_position_at(ps: Seq<(Seq<char>, Seq<char>)>, key: Seq<char>, j: int)
    requires
        0 <= j < ps.len(),
        ps[j].0 == key,
        forall|i: int| 0 <= i < j ==> #[trigger] ps[i].0 != key,
    ensures
        key_position(ps, key) == Some(j),
    decreases ps.len(),
{
    if j < ps.len() - 1 {
        lemma_key_position_at(ps.drop_last(), key, j);
    } else {
        lemma_key_position_absent(ps.drop_last(), key);
    }
}

proof fn lemma_key_position_absent(ps: Seq<(Seq<char>, Seq<char>)>, key: Seq<char>)
    requires
        forall|i: int| 0 <= i < ps.len() ==> #[trigger] ps[i].0 != key,
    ensures
        key_position(ps, key) is None,
    decreases ps.len(),
{
    if ps.len() > 0 {
        lemma_key_position_absent(ps.drop_last(), key);
    }
}

/// The first `k` parameters rendered, each key once at the place it first
/// appeared, holding its last value's rendering.
pub open spec fn rendered_values(lrs: &LocalizedRuleset, labels: Seq<(String, String)>, params: Seq<(Seq<char>, Seq<char>)>, k: int) -> Seq<(Seq<char>, Seq<char>)>
    decreases k,
{
    if k <= 0 {
        Seq::empty()
    } else {
        let prev = rendered_values(lrs, labels, params, k - 1);
        let entry = (params[k - 1].0, rendered_text(lrs, labels, params, params[k - 1].1));
        match key_position(prev, params[k - 1].0) {
            Some(j) => prev.update(j, entry),
            None => prev.push(entry),
        }
    }
}

/// The keys the first `k` parameters' values swallowed, in order.
pub open spec fn swallowed_keys(lrs: &LocalizedRuleset, params: Seq<(Seq<char>, Seq<char>)>, k: int) -> Seq<Seq<char>>
    decreases k,
{
    if k <= 0 {
        Seq::empty()
    } else {
        swallowed_keys(lrs, params, k - 1)
            + fills_spec(lrs, params, value_keys(lrs, params[k - 1].1)).map_values(|f: (Seq<char>, Seq<char>)| f.0)
    }
}

/// The entries of `ps` whose key is not among `gone`, in order.
pub open spec fn kept_values(ps: Seq<(Seq<char>, Seq<char>)>, gone: Seq<Seq<char>>) -> Seq<(Seq<char>, Seq<char>)>
    decreases ps.len(),
{
    if ps.len() == 0 {
        Seq::empty()
    } else {
        kept_values(ps.drop_last(), gone) + if gone.contains(ps.last().0) { Seq::empty() } else { seq![ps.last()] }
    }
}

/// The display values of one selection's parameters: each rendered as a
/// full instance name with its sibling discriminators folded in, less the
/// siblings some value swallowed.
pub open spec fn display_values(lrs: &LocalizedRuleset, labels: Seq<(String, String)>, params: Seq<(Seq<char>, Seq<char>)>) -> Seq<(Seq<char>, Seq<char>)> {
    kept_values(rendered_values(lrs, labels, params, params.len() as int), swallowed_keys(lrs, params, params.len() as int))
}

/// The chrome keys filling `t`'s placeholders reads: the slot label of each
/// placeholder that `vals` leaves unfilled.
pub open spec fn fill_reads(t: Seq<char>, vals: Seq<(Seq<char>, Seq<char>)>) -> Set<(bool, Seq<char>)>
    decreases t.len(),
{
    let open = index_of(t, '{');
    if open < 0 || open >= t.len() {
        Set::empty()
    } else {
        let after = t.skip(open + 1);
        let close = index_of(after, '}');
        if close < 0 || close >= after.len() {
            fill_reads(after, vals)
        } else {
            (if lookup(vals, after.take(close)) is None { key_read("param-label-"@ + after.take(close)) } else { Set::empty() })
                + fill_reads(after.skip(close + 1), vals)
        }
    }
}

/// The chrome keys filling a template reads: its unfilled slot labels, and
/// the list separator when a value is left over.
pub open spec fn filled_reads(template: Seq<char>, vals: Seq<(Seq<char>, Seq<char>)>) -> Set<(bool, Seq<char>)> {
    let t = escape_spec(template);
    fill_reads(t, vals) + if leftover(t, vals, vals.len() as int).len() == 0 {
        Set::<(bool, Seq<char>)>::empty()
    } else {
        key_read("restricted-xp-list-separator"@)
    }
}

/// The chrome keys rendering the first `k` parameter values reads.
pub open spec fn display_reads(lrs: &LocalizedRuleset, params: Seq<(Seq<char>, Seq<char>)>, k: int) -> Set<(bool, Seq<char>)>
    decreases k,
{
    if k <= 0 {
        Set::empty()
    } else {
        display_reads(lrs, params, k - 1)
            + filled_reads(name_text(lrs, params[k - 1].1), fills_spec(lrs, params, value_keys(lrs, params[k - 1].1)))
    }
}

/// The labels a parameterized item name reads: the item's own name and its
/// template's.
pub open spec fn name_reads(lrs: &LocalizedRuleset, id: Seq<char>, vals: Seq<(Seq<char>, Seq<char>)>) -> Set<(bool, Seq<char>)> {
    id_read(id) + filled_reads(name_text(lrs, id), vals)
}

/// The labels the display values of a selection's parameters read.
pub open spec fn params_reads(lrs: &LocalizedRuleset, params: Seq<(Seq<char>, Seq<char>)>) -> Set<(bool, Seq<char>)> {
    display_reads(lrs, params, params.len() as int)
}

/// The labels an Art's code reads: its name, when it has no abbreviation.
pub open spec fn art_code_reads(lrs: &LocalizedRuleset, id: Seq<char>) -> Set<(bool, Seq<char>)> {
    if abbreviation_spec(lrs, id) is None { id_read(id) } else { Set::empty() }
}

/// The code of an Art: its localized abbreviation, else its name, escaped.
pub open spec fn art_code_text(lrs: &LocalizedRuleset, id: Seq<char>) -> Seq<char> {
    match abbreviation_spec(lrs, id) {
        Some(a) => escape_spec(a),
        None => escape_spec(name_text(lrs, id)),
    }
}

/// Inserts `key` into an ascending list of distinct strings, unless present.
pub(crate) fn insert_sorted(keys: &mut Vec<String>, key: String)
    ensures
        strings_view(final(keys)@) == insert_key(strings_view(old(keys)@), key@),
{
    let ghost ks = strings_view(keys@);
    proof {
        lemma_rank(ks, key@);
    }
    let mut i: usize = 0;
    while i < keys.len() && str_lt(keys[i].as_str(), key.as_str())
        invariant
            i <= keys@.len(),
            ks == strings_view(keys@),
            i <= rank(ks, key@),
            0 <= rank(ks, key@) <= ks.len(),
            forall|j: int| 0 <= j < rank(ks, key@) ==> seq_lt(#[trigger] ks[j], key@),
            rank(ks, key@) < ks.len() ==> !seq_lt(ks[rank(ks, key@)], key@),
        decreases keys.len() - i,
    {
        i += 1;
    }
    assert(i == rank(ks, key@)) by {
        if i < rank(ks, key@) {
            assert(seq_lt(ks[i as int], key@));
        }
    }
    if i < keys.len() && str_eq(keys[i].as_str(), key.as_str()) {
        return;
    }
    keys.insert(i, key);
    assert(strings_view(keys@) =~= ks.insert(i as int, key@));
}

/// Whether `keys` holds `key`.
fn holds(keys: &Vec<String>, key: &str) -> (r: bool)
    ensures
        r == strings_view(keys@).contains(key@),
{
    let mut i: usize = 0;
    while i < keys.len()
        invariant
            i <= keys@.len(),
            forall|j: int| 0 <= j < i ==> #[trigger] keys@[j]@ != key@,
        decreases keys.len() - i,
    {
        if str_eq(keys[i].as_str(), key) {
            assert(strings_view(keys@)[i as int] == key@);
            return true;
        }
        i += 1;
    }
    assert forall|j: int| 0 <= j < strings_view(keys@).len() implies strings_view(keys@)[j] != key@ by {
        assert(keys@[j]@ != key@);
    }
    false
}

impl<'a> Doc<'a> {
    /// The language-neutral ruleset behind the localized one.
    pub fn rules(&self) -> (r: &'a Ruleset)
        ensures
            r == &self.ruleset.ruleset,
    {
        &self.ruleset.ruleset
    }

    /// The localized abbreviation of an Art (`Cr`, `Ig`), else its name.
    pub fn art_code(&mut self, id: &str) -> (r: String)
        requires
            old(self).wf(),
        ensures
            final(self).wf(),
            final(self).same_inputs(old(self)),
            r@ == art_code_text(old(self).ruleset, id@),
            final(self).read@ == old(self).read@ + art_code_reads(old(self).ruleset, id@),
    {
        match self.ruleset.abbreviation(id) {
            Some(a) => {
                assert(self.read@ =~= old(self).read@ + art_code_reads(self.ruleset, id@));
                escape_cell(a.as_str())
            },
            None => {
                let n = self.name(id);
                assert(self.read@ =~= old(self).read@ + art_code_reads(self.ruleset, id@));
                escape_cell(n.as_str())
            },
        }
    }

    /// A Might Score as `<localized realm> <score>`.
    pub fn realm_score(&mut self, might: &MightScore) -> (r: String)
        requires
            old(self).wf(),
        ensures
            final(self).wf(),
            final(self).same_inputs(old(self)),
            r@ == label_text(old(self).labels@, "realm-"@ + might.realm.slug_spec()) + " "@ + crate::text::decimal_int(might.score as int),
            final(self).read@ == old(self).read@ + key_read("realm-"@ + might.realm.slug_spec()),
    {
        let mut s = self.label2("realm-", might.realm.slug());
        s.append(" ");
        let n = crate::export::num(might.score as i64);
        s.append(n.as_str());
        s
    }

    /// The localized separator of an inline list, with its trailing space.
    pub fn list_separator(&mut self) -> (r: String)
        requires
            old(self).wf(),
        ensures
            final(self).wf(),
            final(self).same_inputs(old(self)),
            r@ == label_text(old(self).labels@, "restricted-xp-list-separator"@) + " "@,
            final(self).read@ == old(self).read@ + key_read("restricted-xp-list-separator"@),
    {
        let mut s = self.label("restricted-xp-list-separator");
        s.append(" ");
        s
    }

    /// A parameter value for display: a catalogue id resolves to its name,
    /// free text passes through; escaped either way. Never recorded as
    /// missing.
    pub fn param_value(&self, raw: &str) -> (r: String)
        ensures
            r@ == escape_spec(match display_name_spec(self.ruleset, raw@) {
                Some(n) => n,
                None => raw@,
            }),
    {
        match self.ruleset.display_name(raw) {
            Some(n) => escape_cell(n.as_str()),
            None => escape_cell(raw),
        }
    }

    /// The template of a parameter value: its display name when it is a
    /// catalogue id, else the value itself.
    pub fn value_template(&self, id: &str) -> (r: String)
        ensures
            r@ == match display_name_spec(self.ruleset, id@) {
                Some(n) => n,
                None => id@,
            },
    {
        match self.ruleset.display_name(id) {
            Some(n) => n.clone(),
            None => owned(id),
        }
    }

    /// The `{placeholder}` keys a value's template mentions, ascending, each
    /// once; an unterminated brace names nothing.
    fn placeholder_keys(&self, id: &str) -> (r: Vec<String>)
        ensures
            strings_view(r@) == placeholder_fold(name_text(self.ruleset, id@), Seq::empty()),
    {
        let name = self.value_template(id);
        let cs = chars_of(name.as_str());
        let ghost t = cs@;
        let mut keys: Vec<String> = Vec::new();
        let mut p: usize = 0;
        proof {
            assert(t.skip(0) =~= t);
            assert(strings_view(keys@) =~= Seq::<Seq<char>>::empty());
        }
        while p < cs.len()
            invariant
                p <= cs@.len(),
                t == cs@,
                t == name_text(self.ruleset, id@),
                placeholder_fold(t, Seq::empty()) == placeholder_fold(t.skip(p as int), strings_view(keys@)),
            decreases cs.len() - p,
        {
            let ghost rest = t.skip(p as int);
            let open = match find_char(&cs, p, '{') {
                Some(o) => o,
                None => {
                    proof {
                        lemma_index_of_at(rest, '{', rest.len() as int);
                    }
                    return keys;
                },
            };
            let ghost after = rest.skip(open - p + 1);
            proof {
                lemma_index_of_at(rest, '{', open - p);
                assert(after =~= t.skip(open + 1));
            }
            let close = match find_char(&cs, open + 1, '}') {
                Some(c) => c,
                None => {
                    proof {
                        lemma_index_of_at(after, '}', after.len() as int);
                    }
                    return keys;
                },
            };
            let key = slice_string(&cs, open + 1, close);
            proof {
                lemma_index_of_at(after, '}', close - open - 1);
                assert(key@ =~= after.take(close - open - 1));
                assert(after.skip(close - open) =~= t.skip(close + 1));
            }
            insert_sorted(&mut keys, key);
            p = close + 1;
        }
        proof {
            assert(t.skip(p as int) =~= Seq::<char>::empty());
        }
        keys
    }

    /// The display values of one selection's parameters, keyed as its
    /// template expects them: each value is rendered as a full instance name
    /// with its sibling discriminators folded in, and the siblings it
    /// swallowed are dropped.
    pub fn param_display_values(&mut self, params: &Vec<(String, String)>) -> (r: Vec<(String, String)>)
        requires
            old(self).wf(),
        ensures
            final(self).wf(),
            final(self).same_inputs(old(self)),
            pairs_view(r@) == display_values(old(self).ruleset, old(self).labels@, pairs_view(params@)),
            final(self).read@ == old(self).read@ + params_reads(old(self).ruleset, pairs_view(params@)),
    {
        let ghost lrs = self.ruleset;
        let ghost labels = self.labels@;
        let ghost ps = pairs_view(params@);
        let mut swallowed: Vec<String> = Vec::new();
        let mut rendered: Vec<(String, String)> = Vec::new();
        proof {
            assert(self.read@ =~= old(self).read@ + display_reads(lrs, ps, 0));
            assert(pairs_view(rendered@) =~= Seq::<(Seq<char>, Seq<char>)>::empty());
            assert(strings_view(swallowed@) =~= Seq::<Seq<char>>::empty());
        }
        let mut i: usize = 0;
        while i < params.len()
            invariant
                self.wf(),
                self.same_inputs(old(self)),
                lrs == self.ruleset,
                labels == self.labels@,
                ps == pairs_view(params@),
                i <= params@.len(),
                pairs_view(rendered@) == rendered_values(lrs, labels, ps, i as int),
                strings_view(swallowed@) == swallowed_keys(lrs, ps, i as int),
                self.read@ == old(self).read@ + display_reads(lrs, ps, i as int),
            decreases params.len() - i,
        {
            let key = &params[i].0;
            let value = &params[i].1;
            let placeholders = self.placeholder_keys(value.as_str());
            let ghost keys = strings_view(placeholders@);
            let ghost sw0 = strings_view(swallowed@);
            let mut fills: Vec<(String, String)> = Vec::new();
            proof {
                assert(pairs_view(fills@) =~= Seq::<(Seq<char>, Seq<char>)>::empty());
                assert(keys.take(0) =~= Seq::<Seq<char>>::empty());
                assert(sw0 + fills_spec(lrs, ps, keys.take(0)).map_values(|f: (Seq<char>, Seq<char>)| f.0) =~= sw0);
            }
            let mut k: usize = 0;
            while k < placeholders.len()
                invariant
                    lrs == self.ruleset,
                    ps == pairs_view(params@),
                    keys == strings_view(placeholders@),
                    k <= placeholders@.len(),
                    pairs_view(fills@) == fills_spec(lrs, ps, keys.take(k as int)),
                    strings_view(swallowed@) == sw0 + fills_spec(lrs, ps, keys.take(k as int)).map_values(|f: (Seq<char>, Seq<char>)| f.0),
                decreases placeholders.len() - k,
            {
                proof {
                    assert(keys.take(k + 1).drop_last() =~= keys.take(k as int));
                    assert(keys.take(k + 1).last() == placeholders@[k as int]@);
                }
                let ghost f0 = fills_spec(lrs, ps, keys.take(k as int));
                let ghost fv = pairs_view(fills@);
                let ghost sv = strings_view(swallowed@);
                match lookup_pair(params, placeholders[k].as_str()) {
                    Some(sibling) => {
                        fills.push((placeholders[k].clone(), self.param_value(sibling.as_str())));
                        swallowed.push(placeholders[k].clone());
                        proof {
                            let f = (placeholders@[k as int]@, param_text(lrs, sibling@));
                            assert(fills_spec(lrs, ps, keys.take(k + 1)) == f0.push(f));
                            assert(pairs_view(fills@) =~= fv.push(f));
                            assert(strings_view(swallowed@) =~= sv.push(f.0));
                            assert(f0.push(f).map_values(|g: (Seq<char>, Seq<char>)| g.0) =~= f0.map_values(|g: (Seq<char>, Seq<char>)| g.0).push(f.0));
                        }
                    },
                    None => {
                        assert(fills_spec(lrs, ps, keys.take(k + 1)) == f0);
                    },
                }
                k += 1;
            }
            proof {
                assert(keys.take(placeholders@.len() as int) =~= keys);
            }
            proof {
                assert(ps[i as int] == (key@, value@));
                assert(value_keys(lrs, value@) == keys);
            }
            let text = self.parameterized_value(value.as_str(), &fills);
            proof {
                assert(display_reads(lrs, ps, i + 1) == display_reads(lrs, ps, i as int)
                    + filled_reads(name_text(lrs, value@), pairs_view(fills@)));
                assert(self.read@ =~= old(self).read@ + display_reads(lrs, ps, i + 1));
            }
            let ghost r0 = pairs_view(rendered@);
            match key_index(&rendered, key.as_str()) {
                Some(j) => {
                    proof {
                        assert forall|h: int| 0 <= h < j implies #[trigger] r0[h].0 != key@ by {
                            assert(rendered@[h].0@ != key@);
                        }
                        lemma_key_position_at(r0, key@, j as int);
                    }
                    rendered.set(j, (key.clone(), text));
                    proof {
                        assert(pairs_view(rendered@) =~= r0.update(j as int, (key@, text@)));
                    }
                },
                None => {
                    proof {
                        assert forall|h: int| 0 <= h < r0.len() implies #[trigger] r0[h].0 != key@ by {
                            assert(rendered@[h].0@ != key@);
                        }
                        lemma_key_position_absent(r0, key@);
                    }
                    rendered.push((key.clone(), text));
                    proof {
                        assert(pairs_view(rendered@) =~= r0.push((key@, text@)));
                    }
                },
            }
            proof {
                assert(ps[i as int] == (key@, value@));
                assert(value_keys(lrs, value@) == keys);
                assert(text@ == rendered_text(lrs, labels, ps, value@));
            }
            i += 1;
        }
        let mut kept: Vec<(String, String)> = Vec::new();
        let ghost all = pairs_view(rendered@);
        let ghost gone = strings_view(swallowed@);
        proof {
            assert(pairs_view(kept@) =~= Seq::<(Seq<char>, Seq<char>)>::empty());
            assert(all.take(0) =~= Seq::<(Seq<char>, Seq<char>)>::empty());
        }
        let mut j: usize = 0;
        while j < rendered.len()
            invariant
                all == pairs_view(rendered@),
                gone == strings_view(swallowed@),
                j <= rendered@.len(),
                pairs_view(kept@) == kept_values(all.take(j as int), gone),
            decreases rendered.len() - j,
        {
            proof {
                assert(all.take(j + 1).drop_last() =~= all.take(j as int));
            }
            let ghost before = pairs_view(kept@);
            if !holds(&swallowed, rendered[j].0.as_str()) {
                kept.push((rendered[j].0.clone(), rendered[j].1.clone()));
                assert(pairs_view(kept@) =~= before.push(all[j as int]));
            }
            j += 1;
        }
        proof {
            assert(all.take(rendered@.len() as int) =~= all);
        }
        kept
    }

    /// A localized item name with its chosen parameters folded in; the id is
    /// one the entity holds, so an unresolved one is recorded as missing.
    pub fn parameterized_name(&mut self, id: &str, values: &Vec<(String, String)>) -> (r: String)
        requires
            old(self).wf(),
        ensures
            final(self).wf(),
            final(self).same_inputs(old(self)),
            final(self).read@ == old(self).read@ + name_reads(old(self).ruleset, id@, pairs_view(values@)),
            r@ == filled_template(
                match display_name_spec(old(self).ruleset, id@) {
                    Some(n) => n,
                    None => id@,
                },
                pairs_view(values@),
                old(self).labels@,
            ),
    {
        let n = self.name(id);
        let r = self.fill_template(n.as_str(), values);
        assert(self.read@ =~= old(self).read@ + name_reads(self.ruleset, id@, pairs_view(values@)));
        r
    }

    /// A parameter value's own template with its sibling parameters folded
    /// in; never recorded as missing.
    pub fn parameterized_value(&mut self, id: &str, values: &Vec<(String, String)>) -> (r: String)
        requires
            old(self).wf(),
        ensures
            final(self).wf(),
            final(self).same_inputs(old(self)),
            final(self).read@ == old(self).read@ + filled_reads(name_text(old(self).ruleset, id@), pairs_view(values@)),
            r@ == filled_template(
                match display_name_spec(old(self).ruleset, id@) {
                    Some(n) => n,
                    None => id@,
                },
                pairs_view(values@),
                old(self).labels@,
            ),
    {
        let t = self.value_template(id);
        self.fill_template(t.as_str(), values)
    }

    /// Fills `template`'s `{key}` placeholders from `values`; a placeholder
    /// with no value shows its localized slot label in parentheses, and a
    /// value the template never mentions is appended in parentheses so no
    /// chosen parameter is dropped. An unterminated brace is literal text.
    #[verifier::rlimit(100)]
    #[verifier::spinoff_prover]
    pub fn fill_template(&mut self, template: &str, values: &Vec<(String, String)>) -> (r: String)
        requires
            old(self).wf(),
        ensures
            final(self).wf(),
            final(self).same_inputs(old(self)),
            r@ == filled_template(template@, pairs_view(values@), old(self).labels@),
            final(self).read@ == old(self).read@ + filled_reads(template@, pairs_view(values@)),
    {
        let ghost vals = pairs_view(values@);
        let ghost labels = self.labels@;
        let ghost lrs = self.ruleset;
        let escaped = escape_cell(template);
        let cs = chars_of(escaped.as_str());
        let ghost t = cs@;
        assert(t == escape_spec(template@));
        let mut filled = String::new();
        let mut consumed: Vec<bool> = Vec::new();
        let mut c: usize = 0;
        while c < values.len()
            invariant
                c <= values@.len(),
                consumed@.len() == c,
                forall|j: int| 0 <= j < c ==> !#[trigger] consumed@[j],
            decreases values.len() - c,
        {
            consumed.push(false);
            c += 1;
        }
        let mut p: usize = 0;
        proof {
            assert(t.skip(0) =~= t);
        }
        while p < cs.len()
            invariant
                p <= cs@.len(),
                t == cs@,
                vals == pairs_view(values@),
                labels == self.labels@,
                consumed@.len() == values@.len(),
                self.wf(),
                self.same_inputs(old(self)),
                labels == old(self).labels@,
                filled@ + fill_spec(t.skip(p as int), vals, labels) == fill_spec(t, vals, labels),
                self.read@ + fill_reads(t.skip(p as int), vals) == old(self).read@ + fill_reads(t, vals),
                forall|j: int| 0 <= j < vals.len() ==> #[trigger] slot_taken(t, vals, j) == (consumed@[j] || slot_taken(t.skip(p as int), vals, j)),
            decreases cs.len() - p,
        {
            let ghost rest = t.skip(p as int);
            let ghost pre = filled@;
            let ghost pre_consumed = consumed@;
            match find_char(&cs, p, '{') {
                None => {
                    let tail = slice_string(&cs, p, cs.len());
                    filled.append(tail.as_str());
                    proof {
                        lemma_index_of_at(rest, '{', rest.len() as int);
                        assert(tail@ =~= rest);
                        assert(t.skip(cs.len() as int) =~= Seq::<char>::empty());
                        assert(fill_spec(Seq::<char>::empty(), vals, labels) =~= Seq::<char>::empty());
                        assert(fill_reads(rest, vals) =~= Set::<(bool, Seq<char>)>::empty());
                        assert(fill_reads(Seq::<char>::empty(), vals) =~= Set::<(bool, Seq<char>)>::empty());
                        assert forall|j: int| 0 <= j < vals.len() implies #[trigger] slot_taken(t, vals, j) == (consumed@[j] || slot_taken(t.skip(cs.len() as int), vals, j)) by {
                            assert(!names_slot(rest, vals[j].0));
                            assert(!names_slot(Seq::<char>::empty(), vals[j].0));
                        }
                    }
                    p = cs.len();
                },
                Some(open) => {
                    let head = slice_string(&cs, p, open);
                    filled.append(head.as_str());
                    let ghost after = rest.skip(open - p + 1);
                    proof {
                        lemma_index_of_at(rest, '{', open - p);
                        assert(head@ =~= rest.take(open - p));
                        assert(after =~= t.skip(open + 1));
                    }
                    match find_char(&cs, open + 1, '}') {
                        None => {
                            push_char(&mut filled, '{');
                            proof {
                                lemma_index_of_at(after, '}', after.len() as int);
                                assert(filled@ =~= pre + rest.take(open - p) + seq!['{']);
                                assert(fill_reads(rest, vals) == fill_reads(after, vals));
                                assert forall|j: int| 0 <= j < vals.len() implies #[trigger] slot_taken(t, vals, j) == (consumed@[j] || slot_taken(t.skip(open + 1), vals, j)) by {
                                    assert(names_slot(rest, vals[j].0) == names_slot(after, vals[j].0));
                                }
                            }
                            p = open + 1;
                        },
                        Some(close) => {
                            let key = slice_string(&cs, open + 1, close);
                            let ghost rest2 = after.skip(close - open);
                            proof {
                                lemma_index_of_at(after, '}', close - open - 1);
                                assert(key@ =~= after.take(close - open - 1));
                                assert(rest2 =~= t.skip(close + 1));
                            }
                            match key_index(values, key.as_str()) {
                                Some(j) => {
                                    filled.append(values[j].1.as_str());
                                    consumed.set(j, true);
                                    proof {
                                        assert(vals[j as int].0 == key@);
                                        lemma_lookup_at(vals, key@, j as int);
                                        assert(slot_fill(vals, labels, key@) == values@[j as int].1@);
                                        assert(fill_reads(rest, vals) =~= Set::<(bool, Seq<char>)>::empty() + fill_reads(rest2, vals));
                                        assert forall|i: int| 0 <= i < vals.len() implies #[trigger] slot_taken(t, vals, i) == (consumed@[i] || slot_taken(t.skip(close + 1), vals, i)) by {
                                            assert(names_slot(rest, vals[i].0) == (key@ == vals[i].0 || names_slot(rest2, vals[i].0)));
                                            if i != j && key@ == vals[i].0 && forall|h: int| 0 <= h < i ==> #[trigger] vals[h].0 != vals[i].0 {
                                                if i < j {
                                                    assert(values@[i].0@ != key@);
                                                } else {
                                                    assert(vals[j as int].0 == vals[i].0);
                                                }
                                            }
                                        }
                                    }
                                },
                                None => {
                                    push_char(&mut filled, '(');
                                    let slot = self.label2("param-label-", key.as_str());
                                    filled.append(slot.as_str());
                                    push_char(&mut filled, ')');
                                    proof {
                                        lemma_lookup_absent(vals, key@);
                                        assert(fill_reads(rest, vals) == key_read("param-label-"@ + key@) + fill_reads(rest2, vals));
                                        assert(filled@ =~= pre + rest.take(open - p) + slot_fill(vals, labels, key@));
                                        assert forall|i: int| 0 <= i < vals.len() implies #[trigger] slot_taken(t, vals, i) == (consumed@[i] || slot_taken(t.skip(close + 1), vals, i)) by {
                                            assert(names_slot(rest, vals[i].0) == (key@ == vals[i].0 || names_slot(rest2, vals[i].0)));
                                            assert(values@[i].0@ != key@);
                                        }
                                    }
                                },
                            }
                            p = close + 1;
                        },
                    }
                },
            }
        }
        proof {
            assert(t.skip(cs.len() as int) =~= Seq::<char>::empty());
            assert(fill_spec(Seq::<char>::empty(), vals, labels) =~= Seq::<char>::empty());
            assert(filled@ =~= fill_spec(t, vals, labels));
            assert(fill_reads(Seq::<char>::empty(), vals) =~= Set::<(bool, Seq<char>)>::empty());
            assert(self.read@ =~= old(self).read@ + fill_reads(t, vals));
            assert forall|j: int| 0 <= j < vals.len() implies #[trigger] slot_taken(t, vals, j) == consumed@[j] by {
                assert(!names_slot(Seq::<char>::empty(), vals[j].0));
            }
        }
        let mut extras: Vec<String> = Vec::new();
        let mut j: usize = 0;
        while j < values.len()
            invariant
                j <= values@.len(),
                consumed@.len() == values@.len(),
                vals == pairs_view(values@),
                forall|k: int| 0 <= k < vals.len() ==> #[trigger] slot_taken(t, vals, k) == consumed@[k],
                strings_view(extras@) == leftover(t, vals, j as int),
            decreases values.len() - j,
        {
            let ghost before = extras@;
            if !consumed[j] {
                extras.push(values[j].1.clone());
                proof {
                    assert(strings_view(extras@) =~= strings_view(before).push(vals[j as int].1));
                }
            } else {
                assert(strings_view(extras@) =~= strings_view(before));
            }
            j += 1;
        }
        if extras.len() == 0 {
            assert(filled_reads(template@, vals) =~= fill_reads(t, vals));
            return filled;
        }
        let sep = self.list_separator();
        assert(filled_reads(template@, vals) =~= fill_reads(t, vals) + key_read("restricted-xp-list-separator"@));
        assert(self.read@ =~= old(self).read@ + filled_reads(template@, vals));
        let joined = join(&extras, sep.as_str());
        filled.append(" (");
        filled.append(joined.as_str());
        filled.append(")");
        filled
    }
}

} // verus!
