//! Markdown export of a finished entity.
//!
//! A pure formatter: an entity, a localized ruleset and the caller's chrome
//! labels in, a GitHub-Flavored-Markdown document out. Item names come from
//! the ruleset's i18n; document chrome (headings, field labels, column
//! headers) comes from the caller's `key → text` labels. Neither may reach
//! the document unresolved: the export then fails, naming every chrome key
//! and catalogue id it could not resolve, each once, in order.
use vstd::prelude::*;
use crate::derived::Encumbrance;
use crate::effective::xp::RestrictedXpPool;
use crate::entity::Entity;
use crate::export::magic::{
    annotations_reads, annotations_section, confidence_reads, confidence_section, personality_reads, personality_section, possessions_reads,
    possessions_section, reputations_reads, reputations_section, supernatural_reads, supernatural_section,
};
use crate::export::sections::{
    abilities_section, arts_section, characteristics_section, combat_section, encumbrance_fits, encumbrance_section, equipment_section, health_section,
    identity_section, soak_section, spells_section, subtitle_parts, title_section, virtues_flaws_section, xp_shown,
    abilities_reads, arts_reads, characteristics_reads, combat_reads, encumbrance_reads, equipment_reads, health_reads, identity_reads,
    soak_reads, spells_reads, title_reads, virtues_flaws_reads,
};
use crate::ruleset::{display_name_spec, LocalizedRuleset};
use crate::text::{chars_of, concat, owned, push_char, seq_lt, str_eq, str_lt, string_of};
use crate::types::{lookup, lookup_pair, pairs_view};

pub mod magic;
pub mod resolve;
pub mod sections;

verus! {

// --- errors -----------------------------------------------------------------------

/// A chrome key or catalogue id the export could not resolve.
#[derive(Debug, PartialEq, Eq)]
pub enum MissingLabel {
    /// A chrome key absent from the caller's labels.
    Key(String),
    /// A catalogue id with no entry in the ruleset's i18n.
    CatalogueId(String),
}

/// The view of a missing label: whether it is a catalogue id, and its text.
pub open spec fn missing_view(m: MissingLabel) -> (bool, Seq<char>) {
    match m {
        MissingLabel::Key(k) => (false, k@),
        MissingLabel::CatalogueId(id) => (true, id@),
    }
}

/// The order of missing labels: every chrome key before every catalogue id,
/// each kind by its text.
pub open spec fn missing_lt(a: (bool, Seq<char>), b: (bool, Seq<char>)) -> bool {
    if a.0 != b.0 { !a.0 } else { seq_lt(a.1, b.1) }
}

/// Whether a missing label is indeed unresolved against the inputs.
pub open spec fn unresolved(labels: Seq<(String, String)>, rs: &LocalizedRuleset, m: (bool, Seq<char>)) -> bool {
    if m.0 { display_name_spec(rs, m.1) is None } else { lookup(pairs_view(labels), m.1) is None }
}

/// Whether a list of missing labels is in strictly ascending order (so each
/// is named once).
pub open spec fn strictly_sorted(ms: Seq<MissingLabel>) -> bool {
    forall|i: int, j: int| 0 <= i < j < ms.len() ==> missing_lt(missing_view(#[trigger] ms[i]), missing_view(#[trigger] ms[j]))
}

/// Whether `ms` names the label `v`.
pub open spec fn names(ms: Seq<MissingLabel>, v: (bool, Seq<char>)) -> bool {
    exists|i: int| 0 <= i < ms.len() && missing_view(#[trigger] ms[i]) == v
}

/// Reading the chrome key `k`.
pub open spec fn key_read(k: Seq<char>) -> Set<(bool, Seq<char>)> {
    set![(false, k)]
}

/// Reading the display name of the catalogue id `id`.
pub open spec fn id_read(id: Seq<char>) -> Set<(bool, Seq<char>)> {
    set![(true, id)]
}

/// Why the export failed: every unresolved chrome key and catalogue id,
/// sorted and each named once.
#[derive(Debug)]
pub struct ExportError {
    pub missing: Vec<MissingLabel>,
}

/// How the error message names one missing label.
pub open spec fn missing_text(m: MissingLabel) -> Seq<char> {
    match m {
        MissingLabel::Key(key) => "chrome key '"@ + key@ + "'"@,
        MissingLabel::CatalogueId(id) => "catalogue id '"@ + id@ + "'"@,
    }
}

/// The missing labels named in order, separated by `", "`.
pub open spec fn missing_list(ms: Seq<MissingLabel>) -> Seq<char>
    decreases ms.len(),
{
    if ms.len() == 0 {
        Seq::empty()
    } else if ms.len() == 1 {
        missing_text(ms[0])
    } else {
        missing_list(ms.drop_last()) + ", "@ + missing_text(ms.last())
    }
}

impl ExportError {
    /// The error as one line of text, naming each missing label.
    pub fn message(&self) -> (r: String)
        ensures
            r@ == "export could not resolve: "@ + missing_list(self.missing@),
    {
        let mut out = owned("export could not resolve: ");
        let ghost head = out@;
        let mut i: usize = 0;
        while i < self.missing.len()
            invariant
                i <= self.missing@.len(),
                head == "export could not resolve: "@,
                out@ == head + missing_list(self.missing@.take(i as int)),
            decreases self.missing.len() - i,
        {
            let ghost before = out@;
            proof {
                assert(self.missing@.take(i + 1).drop_last() =~= self.missing@.take(i as int));
            }
            if i > 0 {
                out.append(", ");
            }
            let ghost mid = out@;
            match &self.missing[i] {
                MissingLabel::Key(key) => {
                    out.append("chrome key '");
                    out.append(key.as_str());
                    out.append("'");
                },
                MissingLabel::CatalogueId(id) => {
                    out.append("catalogue id '");
                    out.append(id.as_str());
                    out.append("'");
                },
            }
            proof {
                assert(out@ =~= mid + missing_text(self.missing@[i as int]));
                if i == 0 {
                    assert(self.missing@.take(1) =~= seq![self.missing@[0]]);
                    assert(out@ =~= head + missing_list(self.missing@.take(1)));
                } else {
                    assert(out@ =~= head + missing_list(self.missing@.take(i + 1)));
                }
            }
            i += 1;
        }
        assert(self.missing@.take(self.missing.len() as int) =~= self.missing@);
        out
    }
}

// --- text primitives ----------------------------------------------------------------

/// Unicode White_Space, the set `str::trim` strips.
pub open spec fn is_ws(c: char) -> bool {
    let u = c as u32;
    (0x09 <= u <= 0x0D) || u == 0x20 || u == 0x85 || u == 0xA0 || u == 0x1680
        || (0x2000 <= u <= 0x200A) || u == 0x2028 || u == 0x2029 || u == 0x202F || u == 0x205F || u == 0x3000
}

fn ws(c: char) -> (r: bool)
    ensures
        r == is_ws(c),
{
    let u = c as u32;
    (0x09 <= u && u <= 0x0D) || u == 0x20 || u == 0x85 || u == 0xA0 || u == 0x1680
        || (0x2000 <= u && u <= 0x200A) || u == 0x2028 || u == 0x2029 || u == 0x202F || u == 0x205F || u == 0x3000
}

/// `s` without leading white space.
pub open spec fn trim_start(s: Seq<char>) -> Seq<char>
    decreases s.len(),
{
    if s.len() > 0 && is_ws(s[0]) { trim_start(s.drop_first()) } else { s }
}

/// `s` without trailing white space.
pub open spec fn trim_end(s: Seq<char>) -> Seq<char>
    decreases s.len(),
{
    if s.len() > 0 && is_ws(s.last()) { trim_end(s.drop_last()) } else { s }
}

/// `s` without surrounding white space.
pub open spec fn trim_spec(s: Seq<char>) -> Seq<char> {
    trim_end(trim_start(s))
}

/// Whether `s` is empty or only white space.
pub open spec fn blank(s: Seq<char>) -> bool {
    forall|i: int| 0 <= i < s.len() ==> is_ws(#[trigger] s[i])
}

proof fn lemma_trim_start_skip(s: Seq<char>, i: int)
    requires
        0 <= i <= s.len(),
        forall|j: int| 0 <= j < i ==> is_ws(#[trigger] s[j]),
    ensures
        trim_start(s) == trim_start(s.skip(i)),
    decreases i,
{
    if i > 0 {
        assert(s.skip(1) =~= s.drop_first());
        assert(s.drop_first().skip(i - 1) =~= s.skip(i));
        lemma_trim_start_skip(s.drop_first(), i - 1);
    } else {
        assert(s.skip(0) =~= s);
    }
}

proof fn lemma_trim_end_take(s: Seq<char>, k: int)
    requires
        0 <= k <= s.len(),
        forall|j: int| k <= j < s.len() ==> is_ws(#[trigger] s[j]),
    ensures
        trim_end(s) == trim_end(s.take(k)),
    decreases s.len() - k,
{
    if k < s.len() {
        assert(s.drop_last().take(k) =~= s.take(k));
        lemma_trim_end_take(s.drop_last(), k);
    } else {
        assert(s.take(k) =~= s);
    }
}

/// The characters of `s` with surrounding white space removed.
fn trimmed(s: &Vec<char>) -> (r: Vec<char>)
    ensures
        r@ == trim_spec(s@),
{
    let mut start: usize = 0;
    while start < s.len() && ws(s[start])
        invariant
            start <= s@.len(),
            forall|j: int| 0 <= j < start ==> is_ws(#[trigger] s@[j]),
        decreases s.len() - start,
    {
        start += 1;
    }
    proof {
        lemma_trim_start_skip(s@, start as int);
        if start < s.len() {
            assert(s@.skip(start as int)[0] == s@[start as int]);
        }
    }
    let ghost rest = s@.skip(start as int);
    assert(trim_start(s@) == rest);
    let mut end: usize = s.len();
    while end > start && ws(s[end - 1])
        invariant
            start <= end <= s@.len(),
            rest == s@.skip(start as int),
            forall|j: int| end - start <= j < rest.len() ==> is_ws(#[trigger] rest[j]),
        decreases end,
    {
        end -= 1;
    }
    proof {
        lemma_trim_end_take(rest, end - start);
        if end > start {
            assert(rest.take(end - start).last() == s@[end - 1]);
        }
    }
    let mut out: Vec<char> = Vec::new();
    let mut k = start;
    while k < end
        invariant
            start <= k <= end <= s@.len(),
            rest == s@.skip(start as int),
            out@ == rest.take(k - start),
        decreases end - k,
    {
        out.push(s[k]);
        proof {
            assert(rest.take(k + 1 - start) =~= rest.take(k - start).push(s@[k as int]));
        }
        k += 1;
    }
    out
}

/// Whether the text is empty or only white space.
pub fn is_blank(text: &str) -> (r: bool)
    ensures
        r == blank(text@),
{
    let cs = chars_of(text);
    let mut i: usize = 0;
    while i < cs.len()
        invariant
            cs@ == text@,
            i <= cs@.len(),
            forall|j: int| 0 <= j < i ==> is_ws(#[trigger] text@[j]),
        decreases cs.len() - i,
    {
        if !ws(cs[i]) {
            return false;
        }
        i += 1;
    }
    true
}

/// One character of free text made table-safe: a line break becomes a space,
/// a backslash is doubled, a pipe is escaped.
pub open spec fn escape_char(c: char) -> Seq<char> {
    if c == '\n' || c == '\r' { seq![' '] } else if c == '\\' { seq!['\\', '\\'] } else if c == '|' { seq!['\\', '|'] } else { seq![c] }
}

/// Every character of `s` made table-safe.
pub open spec fn escape_chars(s: Seq<char>) -> Seq<char>
    decreases s.len(),
{
    if s.len() == 0 { Seq::empty() } else { escape_chars(s.drop_last()) + escape_char(s.last()) }
}

/// Free text made safe to print in the document: line breaks flattened, `\`
/// and `|` escaped, surrounding white space trimmed, and a leading `#`
/// escaped so it cannot open a heading.
pub open spec fn escape_spec(s: Seq<char>) -> Seq<char> {
    let t = trim_spec(escape_chars(s));
    if t.len() > 0 && t[0] == '#' { seq!['\\'] + t } else { t }
}

/// Text that cannot break a table row or cell: no line break anywhere, and
/// every `|` escaped by the backslash just before it.
pub open spec fn cell_safe(t: Seq<char>) -> bool {
    &&& forall|i: int| 0 <= i < t.len() ==> (#[trigger] t[i]) != '\n' && t[i] != '\r'
    &&& forall|i: int| 0 <= i < t.len() && (#[trigger] t[i]) == '|' ==> i > 0 && t[i - 1] == '\\'
}

proof fn lemma_escape_chars_safe(s: Seq<char>)
    ensures
        cell_safe(escape_chars(s)),
    decreases s.len(),
{
    if s.len() > 0 {
        lemma_escape_chars_safe(s.drop_last());
        let before = escape_chars(s.drop_last());
        let chunk = escape_char(s.last());
        let t = escape_chars(s);
        assert(t =~= before + chunk);
        assert forall|i: int| 0 <= i < t.len() && (#[trigger] t[i]) == '|' implies i > 0 && t[i - 1] == '\\' by {
            if i < before.len() {
                assert(t[i] == before[i]);
                assert(t[i - 1] == before[i - 1]);
            } else {
                assert(t[i] == chunk[i - before.len()]);
                assert(s.last() == '|' && i == before.len() + 1);
                assert(t[i - 1] == chunk[0]);
            }
        }
        assert forall|i: int| 0 <= i < t.len() implies (#[trigger] t[i]) != '\n' && t[i] != '\r' by {
            if i < before.len() {
                assert(t[i] == before[i]);
            } else {
                assert(t[i] == chunk[i - before.len()]);
            }
        }
    }
}

proof fn lemma_trim_start_safe(t: Seq<char>)
    requires
        cell_safe(t),
    ensures
        cell_safe(trim_start(t)),
    decreases t.len(),
{
    if t.len() > 0 && is_ws(t[0]) {
        let u = t.drop_first();
        assert forall|i: int| 0 <= i < u.len() && (#[trigger] u[i]) == '|' implies i > 0 && u[i - 1] == '\\' by {
            assert(u[i] == t[i + 1]);
            assert(t[i] == '\\');
            if i == 0 {
                assert(is_ws(t[0]));
            } else {
                assert(u[i - 1] == t[i]);
            }
        }
        assert forall|i: int| 0 <= i < u.len() implies (#[trigger] u[i]) != '\n' && u[i] != '\r' by {
            assert(u[i] == t[i + 1]);
        }
        lemma_trim_start_safe(u);
    }
}

proof fn lemma_trim_end_safe(t: Seq<char>)
    requires
        cell_safe(t),
    ensures
        cell_safe(trim_end(t)),
    decreases t.len(),
{
    if t.len() > 0 && is_ws(t.last()) {
        let u = t.drop_last();
        assert forall|i: int| 0 <= i < u.len() && (#[trigger] u[i]) == '|' implies i > 0 && u[i - 1] == '\\' by {
            assert(u[i] == t[i]);
            assert(u[i - 1] == t[i - 1]);
        }
        assert forall|i: int| 0 <= i < u.len() implies (#[trigger] u[i]) != '\n' && u[i] != '\r' by {
            assert(u[i] == t[i]);
        }
        lemma_trim_end_safe(u);
    }
}

/// Escaped free text cannot break the document around it: it holds no line
/// break, every `|` in it is escaped by a backslash, and it never begins
/// with `#`.
pub proof fn law_escaped_text_cannot_break_the_document(s: Seq<char>)
    ensures
        cell_safe(escape_spec(s)),
        escape_spec(s).len() > 0 ==> escape_spec(s)[0] != '#',
{
    lemma_escape_chars_safe(s);
    lemma_trim_start_safe(escape_chars(s));
    lemma_trim_end_safe(trim_start(escape_chars(s)));
    let t = trim_spec(escape_chars(s));
    if t.len() > 0 && t[0] == '#' {
        let r = seq!['\\'] + t;
        assert forall|i: int| 0 <= i < r.len() && (#[trigger] r[i]) == '|' implies i > 0 && r[i - 1] == '\\' by {
            if i == 0 {
                assert(r[0] == '\\');
            } else {
                assert(r[i] == t[i - 1]);
                if i == 1 {
                    assert(t[0] == '#');
                } else {
                    assert(r[i - 1] == t[i - 2]);
                }
            }
        }
        assert forall|i: int| 0 <= i < r.len() implies (#[trigger] r[i]) != '\n' && r[i] != '\r' by {
            if i > 0 {
                assert(r[i] == t[i - 1]);
            }
        }
    }
}

/// Makes free text safe to print inside the document.
pub fn escape_cell(text: &str) -> (r: String)
    ensures
        r@ == escape_spec(text@),
{
    let cs = chars_of(text);
    let mut out: Vec<char> = Vec::new();
    let mut i: usize = 0;
    while i < cs.len()
        invariant
            cs@ == text@,
            i <= cs@.len(),
            out@ == escape_chars(text@.take(i as int)),
        decreases cs.len() - i,
    {
        proof {
            assert(text@.take(i + 1).drop_last() =~= text@.take(i as int));
        }
        let c = cs[i];
        let ghost before = out@;
        if c == '\n' || c == '\r' {
            out.push(' ');
        } else if c == '\\' {
            out.push('\\');
            out.push('\\');
        } else if c == '|' {
            out.push('\\');
            out.push('|');
        } else {
            out.push(c);
        }
        proof {
            assert(out@ =~= before + escape_char(c));
        }
        i += 1;
    }
    assert(text@.take(cs.len() as int) =~= text@);
    let t = trimmed(&out);
    if t.len() > 0 && t[0] == '#' {
        let mut s = String::new();
        push_char(&mut s, '\\');
        let rest = string_of(&t);
        s.append(rest.as_str());
        assert(s@ =~= seq!['\\'] + t@);
        s
    } else {
        string_of(&t)
    }
}

/// `label: value`.
pub fn pair(label: &str, value: &str) -> (r: String)
    ensures
        r@ == label@ + ": "@ + value@,
{
    let mut s = owned(label);
    s.append(": ");
    s.append(value);
    proof {
        reveal_strlit(": ");
    }
    s
}

/// `n` `#` characters.
pub open spec fn hashes(n: nat) -> Seq<char>
    decreases n,
{
    if n == 0 { Seq::empty() } else { hashes((n - 1) as nat).push('#') }
}

/// Appends an ATX heading of `level` and the blank line after it.
pub fn heading(out: &mut String, level: usize, text: &str)
    ensures
        final(out)@ == old(out)@ + hashes(level as nat) + " "@ + text@ + "\n\n"@,
{
    let ghost start = out@;
    let mut i: usize = 0;
    while i < level
        invariant
            i <= level,
            out@ == start + hashes(i as nat),
        decreases level - i,
    {
        push_char(out, '#');
        i += 1;
    }
    out.append(" ");
    out.append(text);
    out.append("\n\n");
}

/// Appends a `- **label**: value` bullet.
pub fn field(out: &mut String, label: &str, value: &str)
    ensures
        final(out)@ == old(out)@ + "- **"@ + label@ + "**: "@ + value@ + "\n"@,
{
    out.append("- **");
    out.append(label);
    out.append("**: ");
    out.append(value);
    out.append("\n");
}

/// The parts joined by `sep`.
pub open spec fn join_spec(parts: Seq<Seq<char>>, sep: Seq<char>) -> Seq<char>
    decreases parts.len(),
{
    if parts.len() == 0 {
        Seq::empty()
    } else if parts.len() == 1 {
        parts[0]
    } else {
        join_spec(parts.drop_last(), sep) + sep + parts.last()
    }
}

/// The views of a list of strings.
pub open spec fn strings_view(v: Seq<String>) -> Seq<Seq<char>> {
    v.map_values(|s: String| s@)
}

/// The strings joined by `sep`.
pub fn join(parts: &Vec<String>, sep: &str) -> (r: String)
    ensures
        r@ == join_spec(strings_view(parts@), sep@),
{
    let mut out = String::new();
    let mut i: usize = 0;
    while i < parts.len()
        invariant
            i <= parts@.len(),
            out@ == join_spec(strings_view(parts@.take(i as int)), sep@),
        decreases parts.len() - i,
    {
        proof {
            assert(strings_view(parts@.take(i + 1)).drop_last() =~= strings_view(parts@.take(i as int)));
            assert(strings_view(parts@.take(i + 1)).last() == parts@[i as int]@);
            if i == 0 {
                assert(strings_view(parts@.take(1)) =~= seq![parts@[0]@]);
            }
        }
        if i > 0 {
            out.append(sep);
        }
        out.append(parts[i].as_str());
        i += 1;
    }
    assert(parts@.take(parts.len() as int) =~= parts@);
    out
}

/// One table line: `| a | b | c |` and its line break.
pub open spec fn row_line(cells: Seq<Seq<char>>) -> Seq<char> {
    "| "@ + join_spec(cells, " | "@) + " |\n"@
}

/// The delimiter cells under `n` headers.
pub open spec fn rule_cells(n: nat) -> Seq<char>
    decreases n,
{
    if n == 0 { Seq::empty() } else { rule_cells((n - 1) as nat) + " --- |"@ }
}

/// The lines of the rows, in order.
pub open spec fn rows_text(rows: Seq<Seq<Seq<char>>>) -> Seq<char>
    decreases rows.len(),
{
    if rows.len() == 0 { Seq::empty() } else { rows_text(rows.drop_last()) + row_line(rows.last()) }
}

/// A GFM table (header line, delimiter line, one line per row) and the blank
/// line after it; nothing when there are no rows.
pub open spec fn table_spec(headers: Seq<Seq<char>>, rows: Seq<Seq<Seq<char>>>) -> Seq<char> {
    if rows.len() == 0 {
        Seq::empty()
    } else {
        row_line(headers) + "|"@ + rule_cells(headers.len()) + "\n"@ + rows_text(rows) + "\n"@
    }
}

/// The views of a list of rows.
pub open spec fn rows_view(rows: Seq<Vec<String>>) -> Seq<Seq<Seq<char>>> {
    rows.map_values(|r: Vec<String>| strings_view(r@))
}

/// Appends a GFM table and the blank line after it; nothing when there are no
/// rows.
pub fn table(out: &mut String, headers: &Vec<String>, rows: &Vec<Vec<String>>)
    ensures
        final(out)@ == old(out)@ + table_spec(strings_view(headers@), rows_view(rows@)),
{
    if rows.len() == 0 {
        return;
    }
    let ghost start = out@;
    out.append("| ");
    let head = join(headers, " | ");
    out.append(head.as_str());
    out.append(" |\n");
    out.append("|");
    let mut i: usize = 0;
    while i < headers.len()
        invariant
            i <= headers@.len(),
            out@ == start + row_line(strings_view(headers@)) + "|"@ + rule_cells(i as nat),
        decreases headers.len() - i,
    {
        out.append(" --- |");
        i += 1;
    }
    out.append("\n");
    let ghost top = out@;
    let mut r: usize = 0;
    while r < rows.len()
        invariant
            r <= rows@.len(),
            out@ == top + rows_text(rows_view(rows@).take(r as int)),
        decreases rows.len() - r,
    {
        proof {
            assert(rows_view(rows@).take(r + 1).drop_last() =~= rows_view(rows@).take(r as int));
        }
        out.append("| ");
        let line = join(&rows[r], " | ");
        out.append(line.as_str());
        out.append(" |\n");
        r += 1;
    }
    out.append("\n");
    assert(rows_view(rows@).take(rows.len() as int) =~= rows_view(rows@));
}

/// The decimal text of an integer.
pub fn num(n: i64) -> (r: String)
    ensures
        r@ == crate::text::decimal_int(n as int),
{
    crate::text::decimal(n)
}


/// The chrome keys, in the order `label_keys` lists them.
pub open spec fn chrome_keys() -> Seq<&'static str> {
    seq![
        "abilities-title",
        "ability-category-academic",
        "ability-category-arcane",
        "ability-category-general",
        "ability-category-martial",
        "ability-category-supernatural",
        "ability-score-label",
        "ability-specialty-label",
        "age-label",
        "aging-die-label",
        "aging-label",
        "aging-log-crisis-unrolled",
        "aging-log-heading",
        "aging-points-heading",
        "apparent-age-label",
        "art-type-form",
        "art-type-technique",
        "aura-label",
        "characteristic-com",
        "characteristic-description-label",
        "characteristic-dex",
        "characteristic-int",
        "characteristic-per",
        "characteristic-pre",
        "characteristic-qik",
        "characteristic-sta",
        "characteristic-str",
        "characteristics-title",
        "confidence-label",
        "crisis-die-label",
        "crisis-label",
        "crisis-severity-critical",
        "crisis-severity-major",
        "crisis-severity-minor",
        "crisis-severity-serious",
        "crisis-severity-terminal",
        "crisis-total-label",
        "decrepitude-effect-label",
        "decrepitude-label",
        "derived-addend-armor",
        "derived-addend-bronze_cord",
        "derived-addend-form_bonus",
        "derived-addend-soak_mod",
        "derived-addend-stamina",
        "derived-burden",
        "derived-combat-attack",
        "derived-combat-damage",
        "derived-combat-defense",
        "derived-combat-init",
        "derived-combat-shield-joiner",
        "derived-fatigue-dazed",
        "derived-fatigue-fresh",
        "derived-fatigue-tired",
        "derived-fatigue-weary",
        "derived-fatigue-winded",
        "derived-load",
        "derived-range",
        "derived-section-combat",
        "derived-section-encumbrance",
        "derived-section-fatigue",
        "derived-section-soak",
        "derived-section-wounds",
        "derived-wound-dead",
        "derived-wound-heavy",
        "derived-wound-incapacitating",
        "derived-wound-light",
        "derived-wound-medium",
        "device-level-label",
        "equipment-equipped-label",
        "equipment-group-armor",
        "equipment-group-shields",
        "equipment-group-weapons",
        "export-col-effective",
        "export-col-magnitude",
        "export-col-penalty",
        "export-col-points",
        "export-col-spell-code",
        "export-col-total",
        "export-col-type",
        "export-granted",
        "export-items-boons",
        "export-items-hooks",
        "export-no",
        "export-untitled",
        "export-xp-restricted",
        "export-yes",
        "familiar-animal-label",
        "familiar-cord-bronze",
        "familiar-cord-gold",
        "familiar-cord-silver",
        "familiar-label",
        "familiar-might-label",
        "familiar-powers-label",
        "familiar-size-label",
        "house-label",
        "identity-birth-year",
        "identity-concept",
        "identity-covenant",
        "identity-description",
        "identity-gender",
        "identity-label",
        "identity-name",
        "identity-parens",
        "identity-sigil",
        "items-flaws-title",
        "items-virtues-title",
        "living-conditions-label",
        "longevity-bonus-label",
        "longevity-focus-label",
        "longevity-label",
        "longevity-not-entered",
        "longevity-source-external",
        "longevity-source-label",
        "longevity-source-self_made",
        "magnitude-free",
        "magnitude-major",
        "magnitude-minor",
        "param-label-ability",
        "personality-label",
        "possessions-devices-label",
        "power-level-label",
        "realm-divine",
        "realm-faerie",
        "realm-infernal",
        "realm-magic",
        "reputation-type-academic",
        "reputation-type-ecclesiastical",
        "reputation-type-hermetic",
        "reputation-type-local",
        "reputations-label",
        "restricted-xp-list-separator",
        "spell-level-general",
        "spell-mastery-abilities-label",
        "spell-mastery-label",
        "supernatural-might-label",
        "supernatural-powers-label",
        "tab-arts",
        "tab-equipment",
        "tab-possessions",
        "tab-spells",
        "tab-supernatural",
        "tab-virtues-flaws",
        "talisman-attunements-label",
        "talisman-bonus-label",
        "talisman-description-label",
        "talisman-effect-level-label",
        "talisman-effects-label",
        "talisman-label",
        "twilight-scars-label",
        "warping-effect-label",
        "warping-label",
        "warping-points-label",
        "xp-pool",
        "xp-pool-childhood_native_language",
        "xp-pool-childhood_spread",
        "xp-pool-later_life",
    ]
}

/// Every chrome key the export can ask for by name or compose from a fixed
/// taxonomy, sorted and each once. Three families are composed from
/// catalogue data and are not listed: `type-<profile id>`,
/// `param-label-<parameter key>` and `category-<item category>`.
pub fn label_keys() -> (r: Vec<&'static str>)
    ensures
        r@ == chrome_keys(),
{
    vec![
        "abilities-title",
        "ability-category-academic",
        "ability-category-arcane",
        "ability-category-general",
        "ability-category-martial",
        "ability-category-supernatural",
        "ability-score-label",
        "ability-specialty-label",
        "age-label",
        "aging-die-label",
        "aging-label",
        "aging-log-crisis-unrolled",
        "aging-log-heading",
        "aging-points-heading",
        "apparent-age-label",
        "art-type-form",
        "art-type-technique",
        "aura-label",
        "characteristic-com",
        "characteristic-description-label",
        "characteristic-dex",
        "characteristic-int",
        "characteristic-per",
        "characteristic-pre",
        "characteristic-qik",
        "characteristic-sta",
        "characteristic-str",
        "characteristics-title",
        "confidence-label",
        "crisis-die-label",
        "crisis-label",
        "crisis-severity-critical",
        "crisis-severity-major",
        "crisis-severity-minor",
        "crisis-severity-serious",
        "crisis-severity-terminal",
        "crisis-total-label",
        "decrepitude-effect-label",
        "decrepitude-label",
        "derived-addend-armor",
        "derived-addend-bronze_cord",
        "derived-addend-form_bonus",
        "derived-addend-soak_mod",
        "derived-addend-stamina",
        "derived-burden",
        "derived-combat-attack",
        "derived-combat-damage",
        "derived-combat-defense",
        "derived-combat-init",
        "derived-combat-shield-joiner",
        "derived-fatigue-dazed",
        "derived-fatigue-fresh",
        "derived-fatigue-tired",
        "derived-fatigue-weary",
        "derived-fatigue-winded",
        "derived-load",
        "derived-range",
        "derived-section-combat",
        "derived-section-encumbrance",
        "derived-section-fatigue",
        "derived-section-soak",
        "derived-section-wounds",
        "derived-wound-dead",
        "derived-wound-heavy",
        "derived-wound-incapacitating",
        "derived-wound-light",
        "derived-wound-medium",
        "device-level-label",
        "equipment-equipped-label",
        "equipment-group-armor",
        "equipment-group-shields",
        "equipment-group-weapons",
        "export-col-effective",
        "export-col-magnitude",
        "export-col-penalty",
        "export-col-points",
        "export-col-spell-code",
        "export-col-total",
        "export-col-type",
        "export-granted",
        "export-items-boons",
        "export-items-hooks",
        "export-no",
        "export-untitled",
        "export-xp-restricted",
        "export-yes",
        "familiar-animal-label",
        "familiar-cord-bronze",
        "familiar-cord-gold",
        "familiar-cord-silver",
        "familiar-label",
        "familiar-might-label",
        "familiar-powers-label",
        "familiar-size-label",
        "house-label",
        "identity-birth-year",
        "identity-concept",
        "identity-covenant",
        "identity-description",
        "identity-gender",
        "identity-label",
        "identity-name",
        "identity-parens",
        "identity-sigil",
        "items-flaws-title",
        "items-virtues-title",
        "living-conditions-label",
        "longevity-bonus-label",
        "longevity-focus-label",
        "longevity-label",
        "longevity-not-entered",
        "longevity-source-external",
        "longevity-source-label",
        "longevity-source-self_made",
        "magnitude-free",
        "magnitude-major",
        "magnitude-minor",
        "param-label-ability",
        "personality-label",
        "possessions-devices-label",
        "power-level-label",
        "realm-divine",
        "realm-faerie",
        "realm-infernal",
        "realm-magic",
        "reputation-type-academic",
        "reputation-type-ecclesiastical",
        "reputation-type-hermetic",
        "reputation-type-local",
        "reputations-label",
        "restricted-xp-list-separator",
        "spell-level-general",
        "spell-mastery-abilities-label",
        "spell-mastery-label",
        "supernatural-might-label",
        "supernatural-powers-label",
        "tab-arts",
        "tab-equipment",
        "tab-possessions",
        "tab-spells",
        "tab-supernatural",
        "tab-virtues-flaws",
        "talisman-attunements-label",
        "talisman-bonus-label",
        "talisman-description-label",
        "talisman-effect-level-label",
        "talisman-effects-label",
        "talisman-label",
        "twilight-scars-label",
        "warping-effect-label",
        "warping-label",
        "warping-points-label",
        "xp-pool",
        "xp-pool-childhood_native_language",
        "xp-pool-childhood_spread",
        "xp-pool-later_life",
    ]
}

// --- the document --------------------------------------------------------------------

/// The formatter's inputs and the missing labels found so far.
pub struct Doc<'a> {
    pub entity: &'a Entity,
    pub ruleset: &'a LocalizedRuleset,
    pub labels: &'a Vec<(String, String)>,
    pub missing: Vec<MissingLabel>,
    /// Every label read so far.
    pub read: Ghost<Set<(bool, Seq<char>)>>,
}

impl<'a> Doc<'a> {
    /// The missing labels found so far are sorted, each once, and each is
    /// unresolved.
    pub open spec fn sorted_unresolved(&self) -> bool {
        &&& strictly_sorted(self.missing@)
        &&& forall|i: int| 0 <= i < self.missing@.len() ==> unresolved(self.labels@, self.ruleset, missing_view(#[trigger] self.missing@[i]))
    }

    /// The missing labels are sorted, each once, and are exactly the labels
    /// read so far that do not resolve.
    pub open spec fn wf(&self) -> bool {
        &&& self.sorted_unresolved()
        &&& forall|v: (bool, Seq<char>)| #[trigger] names(self.missing@, v) <==> (self.read@.contains(v) && unresolved(self.labels@, self.ruleset, v))
    }

    /// The inputs of `self` are those of `other`.
    pub open spec fn same_inputs(&self, other: &Doc<'a>) -> bool {
        &&& self.entity == other.entity
        &&& self.ruleset == other.ruleset
        &&& self.labels == other.labels
    }

    /// Records a missing label, keeping the list sorted and each label once.
    fn note(&mut self, kind: bool, text: &str)
        requires
            old(self).sorted_unresolved(),
            unresolved(old(self).labels@, old(self).ruleset, (kind, text@)),
        ensures
            final(self).sorted_unresolved(),
            final(self).same_inputs(old(self)),
            final(self).read == old(self).read,
            forall|v: (bool, Seq<char>)| #[trigger] names(final(self).missing@, v) <==> (names(old(self).missing@, v) || v == (kind, text@)),
    {
        let mut i: usize = 0;
        while i < self.missing.len() && entry_lt(&self.missing[i], kind, text)
            invariant
                i <= self.missing@.len(),
                self.sorted_unresolved(),
                self.read == old(self).read,
                forall|j: int| 0 <= j < i ==> missing_lt(missing_view(#[trigger] self.missing@[j]), (kind, text@)),
            decreases self.missing.len() - i,
        {
            i += 1;
        }
        if i < self.missing.len() && entry_eq(&self.missing[i], kind, text) {
            assert(names(self.missing@, (kind, text@))) by {
                assert(missing_view(self.missing@[i as int]) == (kind, text@));
            }
            return;
        }
        let entry = if kind { MissingLabel::CatalogueId(owned(text)) } else { MissingLabel::Key(owned(text)) };
        proof {
            lemma_missing_order(self.missing@, i as int, (kind, text@));
        }
        let ghost old_missing = self.missing@;
        self.missing.insert(i, entry);
        proof {
            assert forall|a: int, b: int| 0 <= a < b < self.missing@.len() implies missing_lt(missing_view(#[trigger] self.missing@[a]), missing_view(#[trigger] self.missing@[b])) by {
                if a < i && b < i {
                    assert(self.missing@[a] == old_missing[a] && self.missing@[b] == old_missing[b]);
                } else if a < i && b == i {
                } else if a < i && b > i {
                    assert(self.missing@[b] == old_missing[b - 1]);
                    assert(self.missing@[a] == old_missing[a]);
                    lemma_missing_lt_trans(missing_view(old_missing[a]), (kind, text@), missing_view(old_missing[b - 1]));
                } else if a == i {
                    assert(self.missing@[b] == old_missing[b - 1]);
                } else {
                    assert(self.missing@[a] == old_missing[a - 1] && self.missing@[b] == old_missing[b - 1]);
                }
            }
            assert forall|j: int| 0 <= j < self.missing@.len() implies unresolved(self.labels@, self.ruleset, missing_view(#[trigger] self.missing@[j])) by {
                if j < i {
                    assert(self.missing@[j] == old_missing[j]);
                } else if j > i {
                    assert(self.missing@[j] == old_missing[j - 1]);
                }
            }
            assert forall|v: (bool, Seq<char>)| #[trigger] names(self.missing@, v) <==> (names(old_missing, v) || v == (kind, text@)) by {
                if names(self.missing@, v) {
                    let j = choose|j: int| 0 <= j < self.missing@.len() && missing_view(#[trigger] self.missing@[j]) == v;
                    if j < i {
                        assert(self.missing@[j] == old_missing[j]);
                    } else if j > i {
                        assert(self.missing@[j] == old_missing[j - 1]);
                    }
                }
                if names(old_missing, v) {
                    let j = choose|j: int| 0 <= j < old_missing.len() && missing_view(#[trigger] old_missing[j]) == v;
                    if j < i {
                        assert(self.missing@[j] == old_missing[j]);
                    } else {
                        assert(self.missing@[j + 1] == old_missing[j]);
                    }
                }
                if v == (kind, text@) {
                    assert(missing_view(self.missing@[i as int]) == v);
                }
            }
        }
    }

    /// The chrome text for `key`; a key the labels lack is recorded as missing
    /// and stands in for its own text.
    pub fn label(&mut self, key: &str) -> (r: String)
        requires
            old(self).wf(),
        ensures
            final(self).wf(),
            final(self).same_inputs(old(self)),
            match lookup(pairs_view(old(self).labels@), key@) {
                Some(t) => r@ == t,
                None => r@ == key@,
            },
            final(self).read@ == old(self).read@ + key_read(key@),
            forall|v: (bool, Seq<char>)| #[trigger] names(final(self).missing@, v) <==> (names(old(self).missing@, v)
                || (v == (false, key@) && lookup(pairs_view(old(self).labels@), key@) is None)),
    {
        let ghost before = self.missing@;
        self.read = Ghost(self.read@.insert((false, key@)));
        assert(self.read@ =~= old(self).read@ + key_read(key@));
        match lookup_pair(self.labels, key) {
            Some(text) => text.clone(),
            None => {
                self.note(false, key);
                owned(key)
            },
        }
    }

    /// The display name of a catalogue id the entity holds; an id the i18n
    /// lacks is recorded as missing and stands in for its own text.
    pub fn name(&mut self, id: &str) -> (r: String)
        requires
            old(self).wf(),
        ensures
            final(self).wf(),
            final(self).same_inputs(old(self)),
            match display_name_spec(old(self).ruleset, id@) {
                Some(t) => r@ == t,
                None => r@ == id@,
            },
            final(self).read@ == old(self).read@ + id_read(id@),
            forall|v: (bool, Seq<char>)| #[trigger] names(final(self).missing@, v) <==> (names(old(self).missing@, v)
                || (v == (true, id@) && display_name_spec(old(self).ruleset, id@) is None)),
    {
        let ghost before = self.missing@;
        self.read = Ghost(self.read@.insert((true, id@)));
        assert(self.read@ =~= old(self).read@ + id_read(id@));
        match self.ruleset.display_name(id) {
            Some(text) => text.clone(),
            None => {
                self.note(true, id);
                owned(id)
            },
        }
    }

    /// The chrome text of the key `prefix` + `suffix`.
    pub fn label2(&mut self, prefix: &str, suffix: &str) -> (r: String)
        requires
            old(self).wf(),
        ensures
            final(self).wf(),
            final(self).same_inputs(old(self)),
            r@ == label_text(old(self).labels@, prefix@ + suffix@),
            final(self).read@ == old(self).read@ + key_read(prefix@ + suffix@),
    {
        let key = concat(prefix, suffix);
        self.label(key.as_str())
    }

    /// Appends an ATX heading whose text is the chrome label for `key`.
    pub fn section(&mut self, out: &mut String, level: usize, key: &str)
        requires
            old(self).wf(),
        ensures
            final(self).wf(),
            final(self).same_inputs(old(self)),
            final(out)@ == old(out)@ + hashes(level as nat) + " "@ + label_text(old(self).labels@, key@) + "\n\n"@,
            final(out)@ == old(out)@ + heading_text(old(self).labels@, level as nat, key@),
            final(self).read@ == old(self).read@ + key_read(key@),
    {
        let text = self.label(key);
        heading(out, level, text.as_str());
        assert(out@ =~= old(out)@ + heading_text(old(self).labels@, level as nat, key@));
    }

    /// Appends a `- **<label for key>**: value` bullet.
    pub fn labelled(&mut self, out: &mut String, key: &str, value: &str)
        requires
            old(self).wf(),
        ensures
            final(self).wf(),
            final(self).same_inputs(old(self)),
            final(out)@ == old(out)@ + "- **"@ + label_text(old(self).labels@, key@) + "**: "@ + value@ + "\n"@,
            final(out)@ == old(out)@ + bullet(label_text(old(self).labels@, key@), value@),
            final(self).read@ == old(self).read@ + key_read(key@),
    {
        let text = self.label(key);
        field(out, text.as_str(), value);
        assert(out@ =~= old(out)@ + bullet(label_text(old(self).labels@, key@), value@));
    }
}

fn entry_lt(m: &MissingLabel, kind: bool, text: &str) -> (r: bool)
    ensures
        r == missing_lt(missing_view(*m), (kind, text@)),
{
    let (k2, t2) = match m {
        MissingLabel::Key(k) => (false, k.as_str()),
        MissingLabel::CatalogueId(id) => (true, id.as_str()),
    };
    if k2 != kind { !k2 } else { str_lt(t2, text) }
}

fn entry_eq(m: &MissingLabel, kind: bool, text: &str) -> (r: bool)
    ensures
        r == (missing_view(*m) == (kind, text@)),
{
    let (k2, t2) = match m {
        MissingLabel::Key(k) => (false, k.as_str()),
        MissingLabel::CatalogueId(id) => (true, id.as_str()),
    };
    k2 == kind && str_eq(t2, text)
}

/// The chrome text for `key`: its label, or the key itself when the labels
/// lack it.
pub open spec fn label_text(labels: Seq<(String, String)>, key: Seq<char>) -> Seq<char> {
    match lookup(pairs_view(labels), key) {
        Some(t) => t,
        None => key,
    }
}

/// A `- **label**: value` bullet.
pub open spec fn bullet(label: Seq<char>, value: Seq<char>) -> Seq<char> {
    "- **"@ + label + "**: "@ + value + "\n"@
}

/// A heading of `level` over the chrome text for `key`, and its blank line.
pub open spec fn heading_text(labels: Seq<(String, String)>, level: nat, key: Seq<char>) -> Seq<char> {
    hashes(level) + " "@ + label_text(labels, key) + "\n\n"@
}

/// Whether `new` extends `old`.
pub open spec fn extends(new: Seq<char>, old: Seq<char>) -> bool {
    old.len() <= new.len() && new.subrange(0, old.len() as int) == old
}

proof fn lemma_seq_lt_trans(a: Seq<char>, b: Seq<char>, c: Seq<char>)
    requires
        seq_lt(a, b),
        seq_lt(b, c),
    ensures
        seq_lt(a, c),
    decreases a.len(),
{
    if a.len() > 0 && b.len() > 0 && c.len() > 0 && a[0] == b[0] && b[0] == c[0] {
        lemma_seq_lt_trans(a.drop_first(), b.drop_first(), c.drop_first());
    }
}

proof fn lemma_missing_lt_trans(a: (bool, Seq<char>), b: (bool, Seq<char>), c: (bool, Seq<char>))
    requires
        missing_lt(a, b),
        missing_lt(b, c),
    ensures
        missing_lt(a, c),
{
    if a.0 == b.0 && b.0 == c.0 {
        lemma_seq_lt_trans(a.1, b.1, c.1);
    }
}

proof fn lemma_seq_lt_total(a: Seq<char>, b: Seq<char>)
    requires
        a != b,
        !seq_lt(a, b),
    ensures
        seq_lt(b, a),
    decreases a.len(),
{
    if a.len() == 0 {
        if b.len() == 0 {
            assert(a =~= b);
        }
    } else if b.len() == 0 {
    } else if a[0] != b[0] {
        assert((a[0] as int) != (b[0] as int));
    } else {
        if a.drop_first() == b.drop_first() {
            assert(a =~= seq![a[0]] + a.drop_first());
            assert(b =~= seq![b[0]] + b.drop_first());
            assert(a =~= b);
        } else {
            lemma_seq_lt_total(a.drop_first(), b.drop_first());
        }
    }
}

/// Where a new label goes: every label before position `i` sorts before it,
/// and (when there is one) the label at `i` sorts after it.
proof fn lemma_missing_order(ms: Seq<MissingLabel>, i: int, x: (bool, Seq<char>))
    requires
        0 <= i <= ms.len(),
        strictly_sorted(ms),
        forall|j: int| 0 <= j < i ==> missing_lt(missing_view(#[trigger] ms[j]), x),
        i < ms.len() ==> missing_view(ms[i]) != x && !missing_lt(missing_view(ms[i]), x),
    ensures
        forall|j: int| i <= j < ms.len() ==> missing_lt(x, missing_view(#[trigger] ms[j])),
{
    if i < ms.len() {
        let m = missing_view(ms[i]);
        if m.0 == x.0 {
            lemma_seq_lt_total(m.1, x.1);
        }
        assert(missing_lt(x, m));
        assert forall|j: int| i <= j < ms.len() implies missing_lt(x, missing_view(#[trigger] ms[j])) by {
            if j > i {
                lemma_missing_lt_trans(x, m, missing_view(ms[j]));
            }
        }
    }
}

// --- the export ----------------------------------------------------------------------

/// The document's title: the escaped name, or the untitled label for a blank
/// name.
pub open spec fn title_spec(entity: &Entity, labels: Seq<(String, String)>) -> Seq<char> {
    if blank(entity.name@) {
        match lookup(pairs_view(labels), "export-untitled"@) {
            Some(t) => t,
            None => "export-untitled"@,
        }
    } else {
        escape_spec(entity.name@)
    }
}

/// The document's first line and the blank line after it.
pub open spec fn title_line(entity: &Entity, labels: Seq<(String, String)>) -> Seq<char> {
    "# "@ + title_spec(entity, labels) + "\n\n"@
}

/// The document's body, every section in order, for the experience shown
/// (`general`, `used`, `pools`) and the Encumbrance `enc`.
pub open spec fn document_body(
    e: &Entity,
    lrs: &LocalizedRuleset,
    labels: Seq<(String, String)>,
    general: u32,
    used: u32,
    pools: Seq<RestrictedXpPool>,
    enc: Encumbrance,
) -> Seq<char> {
    identity_section(e, labels)
        + characteristics_section(e, lrs, labels)
        + virtues_flaws_section(e, lrs, labels)
        + abilities_section(e, lrs, labels, general, used, pools)
        + arts_section(e, lrs, labels)
        + spells_section(e, lrs, labels)
        + equipment_section(e, lrs, labels)
        + combat_section(e, lrs, labels)
        + soak_section(e, &lrs.ruleset, labels)
        + encumbrance_section(labels, enc)
        + health_section(e, &lrs.ruleset, labels)
        + personality_section(labels, e.personality_traits@)
        + reputations_section(labels, e.reputations@)
        + confidence_section(e, &lrs.ruleset, labels)
        + supernatural_section(e, &lrs.ruleset, labels)
        + possessions_section(e, labels)
        + annotations_section(e, lrs, labels)
}

/// A list that names exactly the unresolved labels among `needed` is
/// non-empty exactly when one of them does not resolve.
proof fn lemma_missing_iff_unresolved(ms: Seq<MissingLabel>, labels: Seq<(String, String)>, lrs: &LocalizedRuleset, needed: Set<(bool, Seq<char>)>)
    requires
        forall|v: (bool, Seq<char>)| #[trigger] names(ms, v) <==> (needed.contains(v) && unresolved(labels, lrs, v)),
    ensures
        ms.len() > 0 <==> exists|x: (bool, Seq<char>)| needed.contains(x) && unresolved(labels, lrs, x),
{
    if ms.len() > 0 {
        let x = missing_view(ms[0]);
        assert(names(ms, x));
    }
    if exists|x: (bool, Seq<char>)| needed.contains(x) && unresolved(labels, lrs, x) {
        let x = choose|x: (bool, Seq<char>)| needed.contains(x) && unresolved(labels, lrs, x);
        assert(names(ms, x));
    }
}

/// Every chrome key and catalogue id the document reads, for the experience
/// shown (`general`, `used`, `pools`) and the Encumbrance `enc`: the head's
/// and each section's, in order.
pub open spec fn needed_labels(
    e: &Entity,
    lrs: &LocalizedRuleset,
    labels: Seq<(String, String)>,
    general: u32,
    used: u32,
    pools: Seq<RestrictedXpPool>,
    enc: Encumbrance,
) -> Set<(bool, Seq<char>)> {
    Set::empty()
        + title_reads(e)
        + identity_reads(e)
        + characteristics_reads(e)
        + virtues_flaws_reads(e, lrs, labels)
        + abilities_reads(e, lrs, labels, general, used, pools)
        + arts_reads(e, lrs)
        + spells_reads(e, lrs)
        + equipment_reads(e, lrs, labels)
        + combat_reads(e, lrs)
        + soak_reads(e, &lrs.ruleset)
        + encumbrance_reads(enc)
        + health_reads(e, &lrs.ruleset)
        + personality_reads(e.personality_traits@)
        + reputations_reads(e.reputations@)
        + confidence_reads(e, &lrs.ruleset, labels)
        + supernatural_reads(e, &lrs.ruleset)
        + possessions_reads(e, labels)
        + annotations_reads(e, lrs, labels)
}

/// Renders `entity` as a Markdown document, or the error naming every chrome
/// key and catalogue id the document could not resolve.
///
/// A successful document is its head (the `# ` title line and the subtitle)
/// followed by every section in order, as the section specifications give
/// them. The export fails exactly when a label the document reads (its
/// `needed_labels`) does not resolve, and the failure names every such
/// label, sorted and each once. Labels are read first-match-wins.
#[verifier::rlimit(100)]
#[verifier::spinoff_prover]
pub fn character_markdown(entity: &Entity, ruleset: &LocalizedRuleset, labels: &Vec<(String, String)>) -> (r: Result<String, ExportError>)
    ensures
        match r {
            Ok(doc) => {
                &&& doc@.len() >= title_line(entity, labels@).len()
                &&& doc@.take(title_line(entity, labels@).len() as int) == title_line(entity, labels@)
            },
            Err(e) => {
                &&& e.missing@.len() > 0
                &&& strictly_sorted(e.missing@)
                &&& forall|i: int| 0 <= i < e.missing@.len() ==> unresolved(labels@, ruleset, missing_view(#[trigger] e.missing@[i]))
            },
        },
        exists|general: u32, used: u32, pools: Seq<RestrictedXpPool>, enc: Encumbrance|
            #[trigger] xp_shown(entity, &ruleset.ruleset, general, used, pools)
            && #[trigger] encumbrance_fits(entity, &ruleset.ruleset, enc)
            && (r is Err <==> exists|x: (bool, Seq<char>)| needed_labels(entity, ruleset, labels@, general, used, pools, enc).contains(x) && unresolved(labels@, ruleset, x))
            && match r {
                Ok(doc) => doc@ == title_section(entity, ruleset, labels@) + document_body(entity, ruleset, labels@, general, used, pools, enc),
                Err(e) => forall|x: (bool, Seq<char>)| #[trigger] names(e.missing@, x)
                    <==> (needed_labels(entity, ruleset, labels@, general, used, pools, enc).contains(x) && unresolved(labels@, ruleset, x)),
            },
{
    let mut doc = Doc { entity, ruleset, labels, missing: Vec::new(), read: Ghost(Set::empty()) };
    let ghost lv = labels@;
    let mut out = String::new();
    doc.write_title(&mut out);
    assert(out@ =~= title_section(entity, ruleset, lv));
    let ghost head = out@;
    assert(head =~= title_line(entity, lv) + ("*"@ + join_spec(subtitle_parts(entity, ruleset, lv), " · "@) + "*\n\n"@));
    let mut body = String::new();
    doc.write_identity(&mut body);
    assert(body@ =~= identity_section(entity, lv));
    doc.write_characteristics(&mut body);
    doc.write_virtues_flaws(&mut body);
    let ghost before_abilities = body@;
    let ghost read_before_abilities = doc.read@;
    doc.write_abilities(&mut body);
    let ghost (general, used, pools) = choose|general: u32, used: u32, pools: Seq<RestrictedXpPool>|
        #[trigger] xp_shown(entity, &ruleset.ruleset, general, used, pools)
        && body@ == before_abilities + abilities_section(entity, ruleset, lv, general, used, pools)
        && doc.read@ == read_before_abilities + abilities_reads(entity, ruleset, lv, general, used, pools);
    doc.write_arts(&mut body);
    doc.write_spells(&mut body);
    doc.write_equipment(&mut body);
    doc.write_combat(&mut body);
    doc.write_soak(&mut body);
    let ghost before_encumbrance = body@;
    let ghost read_before_encumbrance = doc.read@;
    doc.write_encumbrance(&mut body);
    let ghost enc = choose|enc: Encumbrance| #[trigger] encumbrance_fits(entity, &ruleset.ruleset, enc)
        && body@ == before_encumbrance + encumbrance_section(lv, enc)
        && doc.read@ == read_before_encumbrance + encumbrance_reads(enc);
    doc.write_health_tracks(&mut body);
    doc.write_personality_traits(&mut body);
    doc.write_reputations(&mut body);
    doc.write_confidence(&mut body);
    doc.write_supernatural(&mut body);
    doc.write_magic_items(&mut body);
    doc.write_annotations(&mut body);
    assert(body@ == document_body(entity, ruleset, lv, general, used, pools, enc));
    out.append(body.as_str());
    assert(out@.take(head.len() as int) =~= head);
    assert(out@.take(title_line(entity, lv).len() as int) =~= title_line(entity, lv));
    assert(xp_shown(entity, &ruleset.ruleset, general, used, pools) && encumbrance_fits(entity, &ruleset.ruleset, enc));
    let ghost needed = needed_labels(entity, ruleset, lv, general, used, pools, enc);
    assert(doc.read@ == needed);
    proof {
        lemma_missing_iff_unresolved(doc.missing@, lv, ruleset, needed);
    }
    if doc.missing.len() > 0 {
        return Err(ExportError { missing: doc.missing });
    }
    Ok(out)
}

} // verus!
