//! The brace-delimited, quote-delimited key/value text format of library
//! indexes and application manifests, read into a flat document whose keys
//! are dotted paths.
//!
//! Reading never fails: whatever a malformed or truncated text lets the
//! scan recognise is kept, and the rest is skipped.

use crate::text::{chars_of, is_whitespace, is_whitespace_char, string_of_range};
use vstd::prelude::*;

verus! {

/// One key with its value.
struct Entry {
    key: String,
    value: String,
}

/// A mapping from dotted key paths to values. It remembers the order in which
/// its keys were first set.
pub struct KeyValueDocument {
    entries: Vec<Entry>,
}

/// Whether some entry of `entries` has the key `key`.
pub open spec fn has_key(entries: Seq<(Seq<char>, Seq<char>)>, key: Seq<char>) -> bool {
    exists|i: int| 0 <= i < entries.len() && (#[trigger] entries[i]).0 == key
}

/// Whether no key occurs twice in `entries`.
pub open spec fn distinct_keys(entries: Seq<(Seq<char>, Seq<char>)>) -> bool {
    forall|i: int, j: int|
        0 <= i < j < entries.len() ==> (#[trigger] entries[i]).0 != (#[trigger] entries[j]).0
}

/// `entries` with `key` set to `value`: in the place where `key` already
/// stands, else at the end.
pub open spec fn put(entries: Seq<(Seq<char>, Seq<char>)>, key: Seq<char>, value: Seq<char>) -> Seq<
    (Seq<char>, Seq<char>),
> {
    if has_key(entries, key) {
        Seq::new(
            entries.len(),
            |i: int|
                if entries[i].0 == key {
                    (key, value)
                } else {
                    entries[i]
                },
        )
    } else {
        entries.push((key, value))
    }
}

/// The value that `entries` holds for `key`.
pub open spec fn value_of(entries: Seq<(Seq<char>, Seq<char>)>, key: Seq<char>) -> Option<
    Seq<char>,
> {
    if has_key(entries, key) {
        Some(entries[choose|i: int| 0 <= i < entries.len() && (#[trigger] entries[i]).0 == key].1)
    } else {
        None
    }
}

/// The mapping that `entries` stands for.
pub open spec fn as_map(entries: Seq<(Seq<char>, Seq<char>)>) -> Map<Seq<char>, Seq<char>> {
    Map::new(|key: Seq<char>| has_key(entries, key), |key: Seq<char>| value_of(entries, key)->0)
}

/// Setting a key is setting it in the mapping: a key that was set before
/// has the later value.
pub proof fn lemma_put_as_map(
    entries: Seq<(Seq<char>, Seq<char>)>,
    key: Seq<char>,
    value: Seq<char>,
)
    requires
        distinct_keys(entries),
    ensures
        as_map(put(entries, key, value)) == as_map(entries).insert(key, value),
{
    lemma_put_distinct(entries, key, value);
}

/// `put` keeps keys distinct, sets the key and leaves the others as they
/// were.
pub proof fn lemma_put_distinct(
    entries: Seq<(Seq<char>, Seq<char>)>,
    key: Seq<char>,
    value: Seq<char>,
)
    requires
        distinct_keys(entries),
    ensures
        distinct_keys(put(entries, key, value)),
        has_key(put(entries, key, value), key),
        value_of(put(entries, key, value), key) == Some(value),
        forall|other: Seq<char>|
            other != key ==> has_key(put(entries, key, value), other) == has_key(entries, other)
                && value_of(put(entries, key, value), other) == value_of(entries, other),
{
    let after = put(entries, key, value);
    if has_key(entries, key) {
        let at = choose|i: int| 0 <= i < entries.len() && (#[trigger] entries[i]).0 == key;
        assert(after[at].0 == key);
    } else {
        assert(after[entries.len() as int].0 == key);
    }
    assert forall|other: Seq<char>| other != key implies has_key(after, other) == has_key(
        entries,
        other,
    ) && value_of(after, other) == value_of(entries, other) by {
        if has_key(entries, other) {
            let i = choose|i: int| 0 <= i < entries.len() && (#[trigger] entries[i]).0 == other;
            assert(after[i] == entries[i]);
        }
    }
}

impl View for KeyValueDocument {
    type V = Seq<(Seq<char>, Seq<char>)>;

    /// The entries, in the order in which their keys were first set.
    closed spec fn view(&self) -> Seq<(Seq<char>, Seq<char>)> {
        Seq::new(self.entries@.len(), |i: int| (self.entries@[i].key@, self.entries@[i].value@))
    }
}

impl KeyValueDocument {
    /// No key occurs twice.
    pub open spec fn wf(&self) -> bool {
        distinct_keys(self@)
    }

    /// A document without entries.
    pub fn new() -> (r: KeyValueDocument)
        ensures
            r@ == Seq::<(Seq<char>, Seq<char>)>::empty(),
            r.wf(),
    {
        let r = KeyValueDocument { entries: Vec::new() };
        r
    }

    /// The number of entries.
    pub fn len(&self) -> (n: usize)
        ensures
            n == self@.len(),
    {
        self.entries.len()
    }

    /// The key of the `i`-th entry.
    pub fn key_at(&self, i: usize) -> (k: &String)
        requires
            i < self@.len(),
        ensures
            k@ == self@[i as int].0,
    {
        &self.entries[i].key
    }

    /// The value of the `i`-th entry.
    pub fn value_at(&self, i: usize) -> (v: &String)
        requires
            i < self@.len(),
        ensures
            v@ == self@[i as int].1,
    {
        &self.entries[i].value
    }

    /// The index of the entry with the key `key`.
    fn position(&self, key: &String) -> (r: Option<usize>)
        ensures
            match r {
                Some(i) => i < self@.len() && self@[i as int].0 == key@,
                None => !has_key(self@, key@),
            },
    {
        let mut i: usize = 0;
        while i < self.entries.len()
            invariant
                i <= self.entries@.len(),
                forall|j: int| 0 <= j < i ==> (#[trigger] self@[j]).0 != key@,
            decreases self.entries@.len() - i,
        {
            if self.entries[i].key == *key {
                return Some(i);
            }
            i = i + 1;
        }
        None
    }

    /// Sets `key` to `value`. A key that is already there keeps its place and
    /// takes the new value.
    pub fn insert(&mut self, key: String, value: String)
        requires
            old(self).wf(),
        ensures
            final(self)@ == put(old(self)@, key@, value@),
            as_map(final(self)@) == as_map(old(self)@).insert(key@, value@),
            final(self).wf(),
    {
        proof {
            lemma_put_distinct(self@, key@, value@);
            lemma_put_as_map(self@, key@, value@);
        }
        match self.position(&key) {
            Some(i) => {
                let ghost before = self@;
                self.entries.set(i, Entry { key, value });
                assert(self@ =~= put(before, key@, value@)) by {
                    assert forall|j: int| 0 <= j < before.len() implies self@[j] == put(
                        before,
                        key@,
                        value@,
                    )[j] by {
                        if j != i {
                            assert(before[j].0 != before[i as int].0);
                        }
                    }
                }
            },
            None => {
                self.entries.push(Entry { key, value });
            },
        }
    }

    /// The value of `key`, if the document has it.
    pub fn get(&self, key: &str) -> (r: Option<&String>)
        requires
            self.wf(),
        ensures
            r.deep_view() == value_of(self@, key@),
            r is Some <==> as_map(self@).contains_key(key@),
            r matches Some(value) ==> value@ == as_map(self@)[key@],
    {
        let wanted = String::from_str(key);
        match self.position(&wanted) {
            Some(i) => {
                proof {
                    let at = choose|j: int|
                        0 <= j < self@.len() && (#[trigger] self@[j]).0 == key@;
                }
                Some(&self.entries[i].value)
            },
            None => None,
        }
    }
}

/// `key` below `prefix`: the two joined by a dot, or `key` alone at the top
/// level.
pub open spec fn dotted(prefix: Seq<char>, key: Seq<char>) -> Seq<char> {
    if prefix.len() == 0 {
        key
    } else {
        prefix + seq!['.'] + key
    }
}

/// The number of white-space characters that stand in `text` from `pos` on,
/// without a gap.
pub open spec fn ws_run(text: Seq<char>, pos: int) -> nat
    decreases text.len() - pos,
{
    if 0 <= pos < text.len() && is_whitespace(text[pos]) {
        1 + ws_run(text, pos + 1)
    } else {
        0
    }
}

/// The number of characters that stand in `text` from `pos` on before the
/// next `stop`, or before the end of `text` where no `stop` follows.
pub open spec fn run_until(text: Seq<char>, pos: int, stop: char) -> nat
    decreases text.len() - pos,
{
    if 0 <= pos < text.len() && text[pos] != stop {
        1 + run_until(text, pos + 1, stop)
    } else {
        0
    }
}

/// Whether a line comment, two slashes, begins in `text` at `pos`.
pub open spec fn starts_comment(text: Seq<char>, pos: int) -> bool {
    0 <= pos && pos + 1 < text.len() && text[pos] == '/' && text[pos + 1] == '/'
}

/// The index after the quote that closes a token whose body ends at `end`.
/// An unterminated token ends with the text.
pub open spec fn past_quote(text: Seq<char>, end: int) -> int {
    if end < text.len() {
        end + 1
    } else {
        end
    }
}

/// The number of characters of `text` from `pos` on.
pub open spec fn remaining(text: Seq<char>, pos: int) -> nat {
    if pos <= text.len() {
        (text.len() - pos) as nat
    } else {
        0
    }
}

/// What one level of the scan does from `pos` on: the number of characters it
/// consumes, and `doc` with the pairs it records.
///
/// The level ends behind the first `}` that is not inside a nested block, or
/// with the text. White space and line comments separate tokens. A quoted
/// key followed by a quoted value is recorded under `prefix`; a quoted key
/// followed by `{` opens a nested level whose prefix is extended by that key;
/// a key followed by neither is dropped. Any other character, `{` without a
/// key included, is skipped.
pub open spec fn scan_block(
    text: Seq<char>,
    pos: int,
    prefix: Seq<char>,
    doc: Seq<(Seq<char>, Seq<char>)>,
) -> (nat, Seq<(Seq<char>, Seq<char>)>)
    decreases remaining(text, pos),
{
    let p = pos + ws_run(text, pos);
    if p >= text.len() {
        ((p - pos) as nat, doc)
    } else if starts_comment(text, p) {
        let next = p + 2 + run_until(text, p + 2, '\n');
        let rest = scan_block(text, next, prefix, doc);
        ((next - pos + rest.0) as nat, rest.1)
    } else if text[p] == '}' {
        ((p + 1 - pos) as nat, doc)
    } else if text[p] == '"' {
        let key_end = p + 1 + run_until(text, p + 1, '"');
        let key = text.subrange(p + 1, key_end);
        let after_key = past_quote(text, key_end);
        let q = after_key + ws_run(text, after_key);
        if q < text.len() && text[q] == '"' {
            let value_end = q + 1 + run_until(text, q + 1, '"');
            let value = text.subrange(q + 1, value_end);
            let next = past_quote(text, value_end);
            let rest = scan_block(text, next, prefix, put(doc, dotted(prefix, key), value));
            ((next - pos + rest.0) as nat, rest.1)
        } else if q < text.len() && text[q] == '{' {
            let inner = scan_block(text, q + 1, dotted(prefix, key), doc);
            let next = q + 1 + inner.0;
            let rest = scan_block(text, next, prefix, inner.1);
            ((next - pos + rest.0) as nat, rest.1)
        } else {
            let rest = scan_block(text, q, prefix, doc);
            ((q - pos + rest.0) as nat, rest.1)
        }
    } else {
        let rest = scan_block(text, p + 1, prefix, doc);
        ((p + 1 - pos + rest.0) as nat, rest.1)
    }
}

/// The document that `text` is read as.
pub open spec fn parse_text(text: Seq<char>) -> Seq<(Seq<char>, Seq<char>)> {
    scan_block(text, 0, Seq::empty(), Seq::empty()).1
}

/// The index of the first character at or after `pos` that is no white
/// space, or the length of `content`.
fn skip_whitespace(content: &Vec<char>, pos: usize) -> (r: usize)
    requires
        pos <= content.len(),
    ensures
        r == pos + ws_run(content@, pos as int),
        r <= content.len(),
{
    let mut i: usize = pos;
    while i < content.len() && is_whitespace_char(content[i])
        invariant
            pos <= i <= content.len(),
            pos + ws_run(content@, pos as int) == i + ws_run(content@, i as int),
        decreases content.len() - i,
    {
        i = i + 1;
    }
    i
}

/// The index of the first `stop` at or after `pos`, or the length of
/// `content`.
fn skip_until(content: &Vec<char>, pos: usize, stop: char) -> (r: usize)
    requires
        pos <= content.len(),
    ensures
        r == pos + run_until(content@, pos as int, stop),
        r <= content.len(),
{
    let mut i: usize = pos;
    while i < content.len() && content[i] != stop
        invariant
            pos <= i <= content.len(),
            pos + run_until(content@, pos as int, stop) == i + run_until(content@, i as int, stop),
        decreases content.len() - i,
    {
        i = i + 1;
    }
    i
}

/// `key` below `prefix`.
pub fn dotted_key(prefix: &str, key: &str) -> (r: String)
    ensures
        r@ == dotted(prefix@, key@),
{
    if prefix.is_empty() {
        String::from_str(key)
    } else {
        let mut out = String::from_str(prefix);
        out.push('.');
        out.append(key);
        out
    }
}

/// Scans one level of `content` from `*pos` on and records its pairs in
/// `result`, the keys below `prefix`. It leaves `*pos` behind the `}` that
/// ends the level, or at the end of `content`; a `*pos` beyond the end is left
/// where it is.
pub fn parse_vdf_recursive(
    content: &Vec<char>,
    pos: &mut usize,
    result: &mut KeyValueDocument,
    prefix: &str,
)
    requires
        old(result).wf(),
    ensures
        final(result).wf(),
        *old(pos) <= content.len() ==> *final(pos) <= content.len(),
        *final(pos) == *old(pos) + scan_block(
            content@,
            *old(pos) as int,
            prefix@,
            old(result)@,
        ).0,
        final(result)@ == scan_block(content@, *old(pos) as int, prefix@, old(result)@).1,
    decreases content.len() - *old(pos),
{
    let len = content.len();
    if *pos > len {
        return ;
    }
    let ghost start = *pos as int;
    let ghost goal = scan_block(content@, start, prefix@, result@);
    while *pos < len
        invariant
            len == content.len(),
            start == *old(pos),
            start <= *pos <= len,
            result.wf(),
            goal == scan_block(content@, start, prefix@, old(result)@),
            start + goal.0 == *pos + scan_block(content@, *pos as int, prefix@, result@).0,
            goal.1 == scan_block(content@, *pos as int, prefix@, result@).1,
        decreases len - *pos,
    {
        let p = skip_whitespace(content, *pos);
        if p >= len {
            *pos = p;
            return ;
        }
        let c = content[p];
        if c == '/' && p + 1 < len && content[p + 1] == '/' {
            *pos = skip_until(content, p + 2, '\n');
        } else if c == '}' {
            *pos = p + 1;
            return ;
        } else if c == '"' {
            let key_end = skip_until(content, p + 1, '"');
            let key = string_of_range(content, p + 1, key_end);
            let after_key = if key_end < len {
                key_end + 1
            } else {
                key_end
            };
            let q = skip_whitespace(content, after_key);
            if q < len && content[q] == '"' {
                let value_end = skip_until(content, q + 1, '"');
                let value = string_of_range(content, q + 1, value_end);
                let full_key = dotted_key(prefix, key.as_str());
                result.insert(full_key, value);
                *pos = if value_end < len {
                    value_end + 1
                } else {
                    value_end
                };
            } else if q < len && content[q] == '{' {
                let nested = dotted_key(prefix, key.as_str());
                *pos = q + 1;
                parse_vdf_recursive(content, pos, result, nested.as_str());
            } else {
                *pos = q;
            }
        } else {
            *pos = p + 1;
        }
    }
}

/// Reads `text` into a document.
pub fn parse(text: &str) -> (r: KeyValueDocument)
    ensures
        r@ == parse_text(text@),
        r.wf(),
{
    let content = chars_of(text);
    let mut result = KeyValueDocument::new();
    let mut pos: usize = 0;
    parse_vdf_recursive(&content, &mut pos, &mut result, "");
    proof {
        reveal_strlit("");
        assert(""@ =~= Seq::<char>::empty());
    }
    result
}

} // verus!
