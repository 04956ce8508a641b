//! Well-formed documents, how they are written, and the proof that reading
//! what was written recovers every pair under its dotted path.

use crate::text::{is_whitespace, occurs_at};
use crate::vdf::{distinct_keys, dotted, has_key, parse_text, put, run_until, scan_block, ws_run};
use vstd::prelude::*;

verus! {

/// The items of a document or of a block, in the order in which they are
/// written. Each item carries the white space that is written around it.
pub enum Items {
    /// No further item.
    End,
    /// A line comment: two slashes and the rest of the line.
    Comment {
        text: Seq<char>,
        /// What follows the end of the line.
        then: Seq<char>,
        rest: Box<Items>,
    },
    /// A quoted key and its quoted value.
    Pair {
        key: Seq<char>,
        /// What separates the key from the value.
        gap: Seq<char>,
        value: Seq<char>,
        /// What follows the value.
        then: Seq<char>,
        rest: Box<Items>,
    },
    /// A quoted key and the block of items that it names, in braces.
    Block {
        key: Seq<char>,
        /// What separates the key from the opening brace.
        gap: Seq<char>,
        /// What follows the opening brace.
        open: Seq<char>,
        body: Box<Items>,
        /// What follows the closing brace.
        then: Seq<char>,
        rest: Box<Items>,
    },
}

/// Whether `text` can stand between quotes: it holds no quote itself.
pub open spec fn is_token(text: Seq<char>) -> bool {
    forall|i: int| 0 <= i < text.len() ==> text[i] != '"'
}

/// Whether `text` can stand in a line comment: it holds no line break.
pub open spec fn is_line(text: Seq<char>) -> bool {
    forall|i: int| 0 <= i < text.len() ==> text[i] != '\n'
}

/// Whether `text` is white space throughout.
pub open spec fn is_blank(text: Seq<char>) -> bool {
    forall|i: int| 0 <= i < text.len() ==> is_whitespace(#[trigger] text[i])
}

/// `text` between quotes.
pub open spec fn quoted(text: Seq<char>) -> Seq<char> {
    seq!['"'] + text + seq!['"']
}

impl Items {
    /// Keys and values can stand between quotes, comments stay on their
    /// line, and what is written around the items is white space.
    pub open spec fn wf(self) -> bool
        decreases self,
    {
        match self {
            Items::End => true,
            Items::Comment { text, then, rest } => {
                &&& is_line(text)
                &&& is_blank(then)
                &&& rest.wf()
            },
            Items::Pair { key, gap, value, then, rest } => {
                &&& is_token(key)
                &&& is_token(value)
                &&& is_blank(gap)
                &&& is_blank(then)
                &&& rest.wf()
            },
            Items::Block { key, gap, open, body, then, rest } => {
                &&& is_token(key)
                &&& is_blank(gap)
                &&& is_blank(open)
                &&& is_blank(then)
                &&& body.wf()
                &&& rest.wf()
            },
        }
    }

    /// The items as they are written.
    pub open spec fn render(self) -> Seq<char>
        decreases self,
    {
        match self {
            Items::End => Seq::empty(),
            Items::Comment { text, then, rest } => {
                let after = then + rest.render();
                seq!['/', '/'] + (text + (seq!['\n'] + after))
            },
            Items::Pair { key, gap, value, then, rest } => {
                let after = then + rest.render();
                quoted(key) + (gap + (quoted(value) + after))
            },
            Items::Block { key, gap, open, body, then, rest } => {
                let after = seq!['}'] + (then + rest.render());
                let inside = open + (body.render() + after);
                quoted(key) + (gap + (seq!['{'] + inside))
            },
        }
    }

    /// The pairs of the items in the order in which they are written, each
    /// key below `prefix` and below the keys of the blocks around it.
    pub open spec fn flatten(self, prefix: Seq<char>) -> Seq<(Seq<char>, Seq<char>)>
        decreases self,
    {
        match self {
            Items::End => Seq::empty(),
            Items::Comment { text, then, rest } => rest.flatten(prefix),
            Items::Pair { key, gap, value, then, rest } => seq![(dotted(prefix, key), value)]
                + rest.flatten(prefix),
            Items::Block { key, gap, open, body, then, rest } => body.flatten(dotted(prefix, key))
                + rest.flatten(prefix),
        }
    }
}

/// `doc` with each of `pairs` set, in their order.
pub open spec fn put_all(doc: Seq<(Seq<char>, Seq<char>)>, pairs: Seq<(Seq<char>, Seq<char>)>) -> Seq<
    (Seq<char>, Seq<char>),
>
    decreases pairs.len(),
{
    if pairs.len() == 0 {
        doc
    } else {
        put_all(put(doc, pairs[0].0, pairs[0].1), pairs.drop_first())
    }
}

/// Setting two lists of pairs one after the other is setting them as one
/// list.
proof fn lemma_put_all_append(
    doc: Seq<(Seq<char>, Seq<char>)>,
    first: Seq<(Seq<char>, Seq<char>)>,
    second: Seq<(Seq<char>, Seq<char>)>,
)
    ensures
        put_all(doc, first + second) == put_all(put_all(doc, first), second),
    decreases first.len(),
{
    if first.len() == 0 {
        assert(first + second =~= second);
    } else {
        assert((first + second).drop_first() =~= first.drop_first() + second);
        lemma_put_all_append(put(doc, first[0].0, first[0].1), first.drop_first(), second);
    }
}

/// Pairs whose keys are distinct, and new to `doc`, are set by adding them.
proof fn lemma_put_all_distinct(
    doc: Seq<(Seq<char>, Seq<char>)>,
    pairs: Seq<(Seq<char>, Seq<char>)>,
)
    requires
        distinct_keys(doc + pairs),
    ensures
        put_all(doc, pairs) == doc + pairs,
    decreases pairs.len(),
{
    if pairs.len() == 0 {
        assert(doc + pairs =~= doc);
    } else {
        let all = doc + pairs;
        let key = pairs[0].0;
        assert(all[doc.len() as int] == pairs[0]);
        if has_key(doc, key) {
            let i = choose|i: int| 0 <= i < doc.len() && (#[trigger] doc[i]).0 == key;
            assert(all[i].0 != all[doc.len() as int].0);
        }
        let next = put(doc, key, pairs[0].1);
        assert(next + pairs.drop_first() =~= all);
        lemma_put_all_distinct(next, pairs.drop_first());
    }
}

/// What stands in a text as a whole stands there in two parts.
proof fn lemma_split(text: Seq<char>, first: Seq<char>, second: Seq<char>, pos: int)
    requires
        occurs_at(text, first + second, pos),
    ensures
        occurs_at(text, first, pos),
        occurs_at(text, second, pos + first.len()),
        forall|i: int| 0 <= i < first.len() ==> text[pos + i] == first[i],
{
    let whole = first + second;
    let found = text.subrange(pos, pos + whole.len());
    assert(text.subrange(pos, pos + first.len()) =~= first) by {
        assert forall|i: int| 0 <= i < first.len() implies text[pos + i] == first[i] by {
            assert(found[i] == whole[i]);
        }
    }
    assert(text.subrange(pos + first.len(), pos + first.len() + second.len()) =~= second) by {
        assert forall|i: int| 0 <= i < second.len() implies text[pos + first.len() + i]
            == second[i] by {
            assert(found[first.len() + i] == whole[first.len() + i]);
        }
    }
    assert forall|i: int| 0 <= i < first.len() implies text[pos + i] == first[i] by {
        assert(found[i] == whole[i]);
    }
}

/// White space that ends before something else, or with the text, is one
/// run.
proof fn lemma_ws_run(text: Seq<char>, pos: int, blank: Seq<char>)
    requires
        occurs_at(text, blank, pos),
        is_blank(blank),
    ensures
        ws_run(text, pos) == blank.len() + ws_run(text, pos + blank.len()),
    decreases blank.len(),
{
    if blank.len() > 0 {
        assert(is_whitespace(blank[0]));
        let rest = blank.drop_first();
        assert(text.subrange(pos + 1, pos + 1 + rest.len()) =~= rest) by {
            assert forall|i: int| 0 <= i < rest.len() implies text[pos + 1 + i] == rest[i] by {
                assert(text.subrange(pos, pos + blank.len())[i + 1] == blank[i + 1]);
            }
        }
        assert forall|i: int| 0 <= i < rest.len() implies is_whitespace(#[trigger] rest[i]) by {
            assert(rest[i] == blank[i + 1]);
        }
        lemma_ws_run(text, pos + 1, rest);
    }
}

/// What holds no `stop` runs up to the `stop` that follows it.
proof fn lemma_token_run(text: Seq<char>, pos: int, token: Seq<char>, stop: char)
    requires
        occurs_at(text, token, pos),
        forall|i: int| 0 <= i < token.len() ==> token[i] != stop,
        pos + token.len() < text.len(),
        text[pos + token.len()] == stop,
    ensures
        run_until(text, pos, stop) == token.len(),
    decreases token.len(),
{
    if token.len() > 0 {
        assert(text.subrange(pos, pos + token.len())[0] == token[0]);
        let rest = token.drop_first();
        assert(text.subrange(pos + 1, pos + 1 + rest.len()) =~= rest) by {
            assert forall|i: int| 0 <= i < rest.len() implies text[pos + 1 + i] == rest[i] by {
                assert(text.subrange(pos, pos + token.len())[i + 1] == token[i + 1]);
            }
        }
        assert forall|i: int| 0 <= i < rest.len() implies rest[i] != stop by {
            assert(rest[i] == token[i + 1]);
        }
        lemma_token_run(text, pos + 1, rest, stop);
    }
}

/// The scan passes over white space.
proof fn lemma_scan_blank(
    text: Seq<char>,
    pos: int,
    blank: Seq<char>,
    prefix: Seq<char>,
    doc: Seq<(Seq<char>, Seq<char>)>,
)
    requires
        occurs_at(text, blank, pos),
        is_blank(blank),
    ensures
        scan_block(text, pos, prefix, doc).0 == blank.len() + scan_block(
            text,
            pos + blank.len(),
            prefix,
            doc,
        ).0,
        scan_block(text, pos, prefix, doc).1 == scan_block(text, pos + blank.len(), prefix, doc).1,
{
    lemma_ws_run(text, pos, blank);
}

/// A quoted token that stands in a text is read as it was written: it opens
/// with a quote, runs up to the next quote and ends behind it.
proof fn lemma_quoted(text: Seq<char>, pos: int, token: Seq<char>)
    requires
        occurs_at(text, quoted(token), pos),
        is_token(token),
    ensures
        text[pos] == '"',
        run_until(text, pos + 1, '"') == token.len(),
        text.subrange(pos + 1, pos + 1 + token.len()) == token,
        pos + token.len() + 2 <= text.len(),
        ws_run(text, pos) == 0,
{
    lemma_split(text, seq!['"'] + token, seq!['"'], pos);
    lemma_split(text, seq!['"'], token, pos);
    assert(text.subrange(pos + 1 + token.len(), pos + 2 + token.len())[0] == seq!['"'][0]);
    lemma_token_run(text, pos + 1, token, '"');
}

/// The scan passes over a comment and the white space behind it.
proof fn lemma_scan_comment(
    text: Seq<char>,
    pos: int,
    line: Seq<char>,
    then: Seq<char>,
    rest: Seq<char>,
    prefix: Seq<char>,
    doc: Seq<(Seq<char>, Seq<char>)>,
)
    requires
        occurs_at(text, seq!['/', '/'] + (line + (seq!['\n'] + (then + rest))), pos),
        is_line(line),
        is_blank(then),
    ensures
        ({
            let next = pos + line.len() + then.len() + 3;
            &&& occurs_at(text, rest, next)
            &&& scan_block(text, pos, prefix, doc).0 == next - pos + scan_block(
                text,
                next,
                prefix,
                doc,
            ).0
            &&& scan_block(text, pos, prefix, doc).1 == scan_block(text, next, prefix, doc).1
        }),
{
    let tail2 = then + rest;
    let tail1 = seq!['\n'] + tail2;
    let tail0 = line + tail1;
    lemma_split(text, seq!['/', '/'], tail0, pos);
    assert(text[pos + 0] == seq!['/', '/'][0]);
    assert(text[pos + 1] == seq!['/', '/'][1]);
    lemma_split(text, line, tail1, pos + 2);
    let end = pos + 2 + line.len();
    lemma_split(text, seq!['\n'], tail2, end);
    assert(text[end + 0] == seq!['\n'][0]);
    lemma_token_run(text, pos + 2, line, '\n');
    lemma_split(text, then, rest, end + 1);
    lemma_scan_blank(text, end, seq!['\n'], prefix, doc);
    lemma_scan_blank(text, end + 1, then, prefix, doc);
}

/// The scan records a pair and passes over the white space behind it.
proof fn lemma_scan_pair(
    text: Seq<char>,
    pos: int,
    key: Seq<char>,
    gap: Seq<char>,
    value: Seq<char>,
    then: Seq<char>,
    rest: Seq<char>,
    prefix: Seq<char>,
    doc: Seq<(Seq<char>, Seq<char>)>,
)
    requires
        occurs_at(text, quoted(key) + (gap + (quoted(value) + (then + rest))), pos),
        is_token(key),
        is_token(value),
        is_blank(gap),
        is_blank(then),
    ensures
        ({
            let next = pos + key.len() + gap.len() + value.len() + then.len() + 4;
            let with_pair = put(doc, dotted(prefix, key), value);
            &&& occurs_at(text, rest, next)
            &&& scan_block(text, pos, prefix, doc).0 == next - pos + scan_block(
                text,
                next,
                prefix,
                with_pair,
            ).0
            &&& scan_block(text, pos, prefix, doc).1 == scan_block(
                text,
                next,
                prefix,
                with_pair,
            ).1
        }),
{
    let tail3 = then + rest;
    let tail2 = quoted(value) + tail3;
    let tail1 = gap + tail2;
    lemma_split(text, quoted(key), tail1, pos);
    lemma_quoted(text, pos, key);
    let after_key = pos + key.len() + 2;
    lemma_split(text, gap, tail2, after_key);
    lemma_ws_run(text, after_key, gap);
    let q = after_key + gap.len();
    lemma_split(text, quoted(value), tail3, q);
    lemma_quoted(text, q, value);
    let behind = q + value.len() + 2;
    lemma_split(text, then, rest, behind);
    lemma_scan_blank(text, behind, then, prefix, put(doc, dotted(prefix, key), value));
}

/// Where the parts of a block stand that stands in `text` at `pos`: its
/// items, the brace that closes it, and what follows the white space behind
/// that brace.
proof fn lemma_block_layout(
    text: Seq<char>,
    pos: int,
    key: Seq<char>,
    gap: Seq<char>,
    open: Seq<char>,
    body: Seq<char>,
    then: Seq<char>,
    rest: Seq<char>,
)
    requires
        occurs_at(
            text,
            quoted(key) + (gap + (seq!['{'] + (open + (body + (seq!['}'] + (then + rest)))))),
            pos,
        ),
    ensures
        ({
            let inside = pos + key.len() + gap.len() + open.len() + 3;
            let brace = inside + body.len();
            &&& occurs_at(text, quoted(key) + (gap + (seq!['{'] + open)), pos)
            &&& occurs_at(text, body, inside)
            &&& brace < text.len()
            &&& text[brace] == '}'
            &&& occurs_at(text, then, brace + 1)
            &&& occurs_at(text, rest, brace + 1 + then.len())
        }),
{
    let tail5 = then + rest;
    let tail4 = seq!['}'] + tail5;
    let tail3 = body + tail4;
    let tail2 = open + tail3;
    let tail1 = seq!['{'] + tail2;
    let tail0 = gap + tail1;
    lemma_split(text, quoted(key), tail0, pos);
    let after_key = pos + key.len() + 2;
    lemma_split(text, gap, tail1, after_key);
    let q = after_key + gap.len();
    lemma_split(text, seq!['{'], tail2, q);
    lemma_split(text, open, tail3, q + 1);
    let inside = q + 1 + open.len();
    lemma_split(text, body, tail4, inside);
    let brace = inside + body.len();
    lemma_split(text, seq!['}'], tail5, brace);
    assert(text[brace + 0] == seq!['}'][0]);
    lemma_split(text, then, rest, brace + 1);
    let head = quoted(key) + (gap + (seq!['{'] + open));
    assert(text.subrange(pos, pos + head.len()) =~= head) by {
        assert forall|i: int| 0 <= i < head.len() implies text[pos + i] == head[i] by {
            if i < key.len() + 2 {
            } else if i < key.len() + 2 + gap.len() {
                assert(text[after_key + (i - key.len() - 2)] == gap[i - key.len() - 2]);
            } else if i == key.len() + 2 + gap.len() {
                assert(text[q + 0] == seq!['{'][0]);
            } else {
                assert(text[q + 1 + (i - key.len() - gap.len() - 3)] == open[i - key.len()
                    - gap.len() - 3]);
            }
        }
    }
}

/// The scan enters a block below its key, and goes on behind what the scan
/// of the block consumes.
proof fn lemma_scan_into_block(
    text: Seq<char>,
    pos: int,
    key: Seq<char>,
    gap: Seq<char>,
    open: Seq<char>,
    prefix: Seq<char>,
    doc: Seq<(Seq<char>, Seq<char>)>,
)
    requires
        occurs_at(text, quoted(key) + (gap + (seq!['{'] + open)), pos),
        is_token(key),
        is_blank(gap),
        is_blank(open),
    ensures
        ({
            let inside = pos + key.len() + gap.len() + open.len() + 3;
            let inner = scan_block(text, inside, dotted(prefix, key), doc);
            let behind = inside + inner.0;
            &&& scan_block(text, pos, prefix, doc).0 == behind - pos + scan_block(
                text,
                behind,
                prefix,
                inner.1,
            ).0
            &&& scan_block(text, pos, prefix, doc).1 == scan_block(text, behind, prefix, inner.1).1
        }),
{
    let tail1 = seq!['{'] + open;
    let tail0 = gap + tail1;
    lemma_split(text, quoted(key), tail0, pos);
    lemma_quoted(text, pos, key);
    let after_key = pos + key.len() + 2;
    lemma_split(text, gap, tail1, after_key);
    lemma_ws_run(text, after_key, gap);
    let q = after_key + gap.len();
    lemma_split(text, seq!['{'], open, q);
    assert(text[q + 0] == seq!['{'][0]);
    lemma_scan_blank(text, q + 1, open, dotted(prefix, key), doc);
}

/// What the scan does with well-formed items that stand in `text` at `pos`
/// and end with the text or, where `closed`, before a closing brace: it
/// consumes them, the brace included, and records their pairs.
proof fn lemma_scan_items(
    text: Seq<char>,
    pos: int,
    items: Items,
    prefix: Seq<char>,
    doc: Seq<(Seq<char>, Seq<char>)>,
    closed: bool,
)
    requires
        items.wf(),
        occurs_at(text, items.render(), pos),
        closed ==> pos + items.render().len() < text.len() && text[pos + items.render().len()]
            == '}',
        !closed ==> pos + items.render().len() == text.len(),
    ensures
        scan_block(text, pos, prefix, doc).0 == items.render().len() + (if closed {
            1nat
        } else {
            0nat
        }),
        scan_block(text, pos, prefix, doc).1 == put_all(doc, items.flatten(prefix)),
    decreases items, 1nat,
{
    match items {
        Items::End => {},
        Items::Comment { .. } => lemma_scan_from_comment(text, pos, items, prefix, doc, closed),
        Items::Pair { .. } => lemma_scan_from_pair(text, pos, items, prefix, doc, closed),
        Items::Block { .. } => lemma_scan_from_block(text, pos, items, prefix, doc, closed),
    }
}

/// [`lemma_scan_items`] for items that begin with a comment.
proof fn lemma_scan_from_comment(
    text: Seq<char>,
    pos: int,
    items: Items,
    prefix: Seq<char>,
    doc: Seq<(Seq<char>, Seq<char>)>,
    closed: bool,
)
    requires
        items is Comment,
        items.wf(),
        occurs_at(text, items.render(), pos),
        closed ==> pos + items.render().len() < text.len() && text[pos + items.render().len()]
            == '}',
        !closed ==> pos + items.render().len() == text.len(),
    ensures
        scan_block(text, pos, prefix, doc).0 == items.render().len() + (if closed {
            1nat
        } else {
            0nat
        }),
        scan_block(text, pos, prefix, doc).1 == put_all(doc, items.flatten(prefix)),
    decreases items, 0nat,
{
    if let Items::Comment { text: line, then, rest } = items {
        lemma_scan_comment(text, pos, line, then, rest.render(), prefix, doc);
        let next = pos + line.len() + then.len() + 3;
        lemma_scan_items(text, next, *rest, prefix, doc, closed);
    }
}

/// [`lemma_scan_items`] for items that begin with a pair.
proof fn lemma_scan_from_pair(
    text: Seq<char>,
    pos: int,
    items: Items,
    prefix: Seq<char>,
    doc: Seq<(Seq<char>, Seq<char>)>,
    closed: bool,
)
    requires
        items is Pair,
        items.wf(),
        occurs_at(text, items.render(), pos),
        closed ==> pos + items.render().len() < text.len() && text[pos + items.render().len()]
            == '}',
        !closed ==> pos + items.render().len() == text.len(),
    ensures
        scan_block(text, pos, prefix, doc).0 == items.render().len() + (if closed {
            1nat
        } else {
            0nat
        }),
        scan_block(text, pos, prefix, doc).1 == put_all(doc, items.flatten(prefix)),
    decreases items, 0nat,
{
    if let Items::Pair { key, gap, value, then, rest } = items {
        lemma_scan_pair(text, pos, key, gap, value, then, rest.render(), prefix, doc);
        let next = pos + key.len() + gap.len() + value.len() + then.len() + 4;
        let with_pair = put(doc, dotted(prefix, key), value);
        lemma_scan_items(text, next, *rest, prefix, with_pair, closed);
        assert(items.flatten(prefix).drop_first() =~= rest.flatten(prefix));
    }
}

/// [`lemma_scan_items`] for items that begin with a block.
proof fn lemma_scan_from_block(
    text: Seq<char>,
    pos: int,
    items: Items,
    prefix: Seq<char>,
    doc: Seq<(Seq<char>, Seq<char>)>,
    closed: bool,
)
    requires
        items is Block,
        items.wf(),
        occurs_at(text, items.render(), pos),
        closed ==> pos + items.render().len() < text.len() && text[pos + items.render().len()]
            == '}',
        !closed ==> pos + items.render().len() == text.len(),
    ensures
        scan_block(text, pos, prefix, doc).0 == items.render().len() + (if closed {
            1nat
        } else {
            0nat
        }),
        scan_block(text, pos, prefix, doc).1 == put_all(doc, items.flatten(prefix)),
    decreases items, 0nat,
{
    if let Items::Block { key, gap, open, body, then, rest } = items {
        lemma_block_layout(text, pos, key, gap, open, body.render(), then, rest.render());
        lemma_scan_into_block(text, pos, key, gap, open, prefix, doc);
        let inside = pos + key.len() + gap.len() + open.len() + 3;
        let brace = inside + body.render().len();
        let below = dotted(prefix, key);
        lemma_scan_items(text, inside, *body, below, doc, true);
        let filled = put_all(doc, body.flatten(below));
        lemma_scan_blank(text, brace + 1, then, prefix, filled);
        lemma_scan_items(text, brace + 1 + then.len(), *rest, prefix, filled, closed);
        lemma_put_all_append(doc, body.flatten(below), rest.flatten(prefix));
    }
}

/// Reading what a well-formed document is written as recovers every pair
/// under the dotted path of the blocks around it: the document read is the
/// one in which the pairs were set in the order in which they are written.
/// Where no dotted key is written twice, it holds exactly those pairs in
/// that order. White space may stand before the first item, and comments
/// between the items add nothing.
pub proof fn lemma_parse_recovers(lead: Seq<char>, items: Items)
    requires
        is_blank(lead),
        items.wf(),
    ensures
        parse_text(lead + items.render()) == put_all(Seq::empty(), items.flatten(Seq::empty())),
        distinct_keys(items.flatten(Seq::empty())) ==> parse_text(lead + items.render())
            == items.flatten(Seq::empty()),
{
    let text = lead + items.render();
    let none = Seq::<char>::empty();
    let empty = Seq::<(Seq<char>, Seq<char>)>::empty();
    assert(text.subrange(0, lead.len() as int) =~= lead);
    assert(text.subrange(lead.len() as int, text.len() as int) =~= items.render());
    lemma_scan_blank(text, 0, lead, none, empty);
    lemma_scan_items(text, lead.len() as int, items, none, empty, false);
    if distinct_keys(items.flatten(none)) {
        lemma_put_all_distinct(empty, items.flatten(none));
    }
}

} // verus!
