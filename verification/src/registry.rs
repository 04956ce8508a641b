//! The override that makes the compatibility layer load the mod loader's
//! library, written into the text of the layer's registry file.
//!
//! The file is plain text. A section begins with a header line, a name in
//! square brackets followed by a time stamp; the entries of the section follow,
//! one quoted key with its quoted value on a line.

use crate::disk::{
    asks_anew, presence, probe, settled, Disk, DiskView, Lookup, LookupView, Query, QueryView,
};
use crate::errors::{result_view, InstallerError, InstallerErrorView};
use crate::paths::{join, join_path, show_path, shown};
use crate::text::{
    chars_of, contains, contains_text, digits, find_text, first_occurrence, joined,
    holds_once, is_first_occurrence, lemma_first_occurrence_exists, lemma_once, occurs_at,
    string_of_range, to_decimal, to_hex,
};
use vstd::prelude::*;

verus! {

/// The header of the section that holds the library overrides, without its
/// time stamp.
pub open spec fn section_header() -> Seq<char> {
    "[Software\\\\Wine\\\\DllOverrides]"@
}

/// What an entry for the overridden library begins with.
pub open spec fn entry_key() -> Seq<char> {
    "\"xinput1_4\"="@
}

/// The entry: the library is loaded in its native form first.
pub open spec fn entry_line() -> Seq<char> {
    "\"xinput1_4\"=\"native,builtin\""@
}

/// What begins the header of a section behind the end of a line.
pub open spec fn section_start() -> Seq<char> {
    "\n["@
}

/// A new section with the entry, as it is appended to a document: an empty
/// line, the header with `timestamp` in decimal, the comment with
/// `timestamp` in hexadecimal, the entry.
pub open spec fn section_block(timestamp: nat) -> Seq<char> {
    "\n\n"@ + section_header() + " "@ + digits(timestamp, 10) + "\n#time="@ + digits(timestamp, 16)
        + "\n"@ + entry_line() + "\n"@
}

/// What is put into `content` at `at`, where a line break stands, so that
/// `entry` becomes a line of its own before that line break: `entry` and a
/// line break where the line before has ended, a line break and `entry` where
/// it has not.
pub open spec fn line_before(content: Seq<char>, at: int, entry: Seq<char>) -> Seq<char> {
    if at <= 0 || content[at - 1] == '\n' {
        entry + "\n"@
    } else {
        "\n"@ + entry
    }
}

/// `content` with the line `entry` at the end of the section `section`: a
/// line of its own before the line break that the next section's header
/// follows, or behind a line break at the end of `content` where no section
/// follows. Without the section, `content` as it is.
pub open spec fn with_entry_in_section(content: Seq<char>, section: Seq<char>, entry: Seq<char>) -> Seq<
    char,
> {
    match first_occurrence(content, section, 0) {
        None => content,
        Some(at) => match first_occurrence(content, section_start(), at + section.len()) {
            Some(next) => content.subrange(0, next) + line_before(content, next, entry)
                + content.subrange(next, content.len() as int),
            None => content + "\n"@ + entry + "\n"@,
        },
    }
}

/// `content` with the override: as it is where it holds the entry's key
/// anywhere; else with the entry, a line of its own, at the end of the
/// overrides section, or with a new section at its end where it has none.
pub open spec fn ensure_entry(content: Seq<char>, timestamp: nat) -> Seq<char> {
    if contains_text(content, entry_key()) {
        content
    } else if !contains_text(content, section_header()) {
        content + section_block(timestamp)
    } else {
        with_entry_in_section(content, section_header(), entry_line())
    }
}

/// Appends a new overrides section with the entry to `content`.
pub fn add_dll_overrides_section(content: &mut String, timestamp: u64)
    ensures
        final(content)@ == old(content)@ + section_block(timestamp as nat),
{
    let mut block = String::from_str("\n\n");
    block.append("[Software\\\\Wine\\\\DllOverrides]");
    block.append(" ");
    block.append(to_decimal(timestamp).as_str());
    block.append("\n#time=");
    block.append(to_hex(timestamp).as_str());
    block.append("\n");
    block.append("\"xinput1_4\"=\"native,builtin\"");
    block.append("\n");
    content.append(block.as_str());
}

/// Puts `entry`, as a line of its own, at the end of the section `section` of
/// `content`. No line of `content` is joined to it: where the line before
/// the next section's header has not ended, the line break goes before
/// `entry`.
pub fn add_dll_entry_to_section(content: &mut String, section: &str, entry: &str)
    ensures
        final(content)@ == with_entry_in_section(old(content)@, section@, entry@),
{
    let text = chars_of(content.as_str());
    let section_chars = chars_of(section);
    let at = match find_text(&text, &section_chars, 0) {
        Some(at) => at,
        None => {
            return ;
        },
    };
    let len = text.len();
    let marker = chars_of("\n[");
    match find_text(&text, &marker, at + section_chars.len()) {
        Some(next) => {
            let mut out = string_of_range(&text, 0, next);
            if next == 0 || text[next - 1] == '\n' {
                out.append(entry);
                out.append("\n");
            } else {
                out.append("\n");
                out.append(entry);
            }
            out.append(string_of_range(&text, next, len).as_str());
            *content = out;
        },
        None => {
            content.append("\n");
            content.append(entry);
            content.append("\n");
        },
    }
}

/// Makes sure that `content` holds the override. A document that holds the
/// entry's key is left as it is, so doing this twice is doing it once.
pub fn ensure_dll_override(content: &mut String, timestamp: u64)
    ensures
        final(content)@ == ensure_entry(old(content)@, timestamp as nat),
{
    let text = chars_of(content.as_str());
    if contains(&text, &chars_of("\"xinput1_4\"=")) {
        return ;
    }
    if !contains(&text, &chars_of("[Software\\\\Wine\\\\DllOverrides]")) {
        add_dll_overrides_section(content, timestamp);
    } else {
        add_dll_entry_to_section(
            content,
            "[Software\\\\Wine\\\\DllOverrides]",
            "\"xinput1_4\"=\"native,builtin\"",
        );
    }
}

/// The registry file of the compatibility prefix `prefix`.
pub open spec fn registry_file(prefix: Seq<char>) -> Seq<char> {
    join(prefix, "user.reg"@)
}

/// What is to be done to the registry file of `prefix` so that it holds the
/// override: nothing where it holds it already, else the file is to be
/// written anew with the given text. A file that is not there is an error,
/// and so is one that cannot be read; each names the file, the second says
/// why.
pub open spec fn registry_patch(disk: DiskView, prefix: Seq<char>, timestamp: nat) -> LookupView<
    Result<Option<(Seq<char>, Seq<char>)>, InstallerErrorView>,
> {
    let file = registry_file(prefix);
    match presence(disk, file) {
        LookupView::Needs(query) => LookupView::Needs(query),
        LookupView::Done(false) => LookupView::Done(
            Err(InstallerErrorView::Unknown("Wine registry file not found: "@ + shown(file))),
        ),
        LookupView::Done(true) => match disk.read(file) {
            None => LookupView::Needs(QueryView::Read(file)),
            Some(Err(detail)) => LookupView::Done(
                Err(
                    InstallerErrorView::Unknown(
                        "Failed to read Wine registry file: "@ + shown(file) + ": "@ + detail,
                    ),
                ),
            ),
            Some(Ok(content)) => LookupView::Done(
                Ok(
                    if ensure_entry(content, timestamp) == content {
                        None
                    } else {
                        Some((file, ensure_entry(content, timestamp)))
                    },
                ),
            ),
        },
    }
}

/// What is to be done to the registry file of `prefix` so that it holds the
/// override: `None` where nothing is, else the file's path and its new text.
pub fn patch_wine_registry(prefix: &str, timestamp: u64, disk: &Disk) -> (r: Lookup<
    Result<Option<(String, String)>, InstallerError>,
>)
    ensures
        match r {
            Lookup::Done(result) => registry_patch(disk@, prefix@, timestamp as nat)
                == LookupView::Done(result_view(result)),
            Lookup::Needs(query) => registry_patch(disk@, prefix@, timestamp as nat)
                == LookupView::<Result<Option<(Seq<char>, Seq<char>)>, InstallerErrorView>>::Needs(
                query.deep_view(),
            ),
        },
{
    let user_reg = join_path(prefix, "user.reg");
    match probe(disk, user_reg.as_str()) {
        Lookup::Needs(query) => {
            return Lookup::Needs(query);
        },
        Lookup::Done(false) => {
            let shown = show_path(user_reg.as_str());
            return Lookup::Done(
                Err(
                    InstallerError::Unknown(
                        joined("Wine registry file not found: ", shown.as_str()),
                    ),
                ),
            );
        },
        Lookup::Done(true) => {},
    }
    match disk.read(user_reg.as_str()) {
        None => Lookup::Needs(Query::Read(user_reg)),
        Some(Err(detail)) => {
            let mut message = String::from_str("Failed to read Wine registry file: ");
            message.append(show_path(user_reg.as_str()).as_str());
            message.append(": ");
            message.append(detail.as_str());
            Lookup::Done(Err(InstallerError::Unknown(message)))
        },
        Some(Ok(before)) => {
            let mut content = before.clone();
            ensure_dll_override(&mut content, timestamp);
            if content == *before {
                Lookup::Done(Ok(None))
            } else {
                Lookup::Done(Ok(Some((user_reg, content))))
            }
        },
    }
}

/// The characters of the entry and of its key.
proof fn lemma_entry_texts()
    ensures
        entry_key() =~= seq!['"', 'x', 'i', 'n', 'p', 'u', 't', '1', '_', '4', '"', '='],
        entry_line() =~= entry_key() + seq![
            '"',
            'n',
            'a',
            't',
            'i',
            'v',
            'e',
            ',',
            'b',
            'u',
            'i',
            'l',
            't',
            'i',
            'n',
            '"',
        ],
        "\n"@ =~= seq!['\n'],
{
    reveal_strlit("\"xinput1_4\"=");
    reveal_strlit("\"xinput1_4\"=\"native,builtin\"");
    reveal_strlit("\n");
}

/// The entry line as it is put before a line break that follows a line
/// break.
pub open spec fn entry_before_section() -> Seq<char> {
    entry_line() + "\n"@
}

/// The entry line between two line breaks: as it is put at the end of a
/// document, and as it stands where a line break is put before it and the
/// line break of the next section's header follows.
pub open spec fn entry_at_end() -> Seq<char> {
    "\n"@ + entry_line() + "\n"@
}

/// What a new section holds before its entry.
pub open spec fn section_lead(timestamp: nat) -> Seq<char> {
    "\n\n"@ + section_header() + " "@ + digits(timestamp, 10) + "\n#time="@ + digits(timestamp, 16)
        + "\n"@
}

/// Each form in which the entry line is put into a document holds the key
/// once.
proof fn lemma_entry_pieces()
    ensures
        holds_once(entry_before_section(), entry_key(), 0),
        holds_once(entry_at_end(), entry_key(), 1),
{
    lemma_entry_texts();
    let key = entry_key();
    let a = entry_before_section();
    let b = entry_at_end();
    assert(a.subrange(0, 12) =~= key);
    assert(b.subrange(1, 13) =~= key);
    assert forall|j: int| 0 <= j < a.len() - 1 && a[j] == '"' && #[trigger] a[j + 1] == 'x' implies j
        == 0 by {
        assert(a[j + 1] == entry_line()[j + 1]);
    }
    assert forall|j: int| 0 <= j < b.len() - 1 && b[j] == '"' && #[trigger] b[j + 1] == 'x' implies j
        == 1 by {
        if j >= 1 {
            assert(b[j + 1] == entry_line()[j]);
        }
    }
}

/// The digits of a number are digits.
proof fn lemma_digits(n: nat, base: nat)
    requires
        2 <= base <= 16,
    ensures
        digits(n, base).len() >= 1,
        forall|i: int|
            0 <= i < digits(n, base).len() ==> {
                let c = #[trigger] digits(n, base)[i];
                '0' <= c <= '9' || 'a' <= c <= 'f'
            },
    decreases n,
{
    if n >= base {
        assert(n / base < n) by (nonlinear_arith)
            requires
                2 <= base <= n,
        ;
        lemma_digits(n / base, base);
        assert(0 <= n % base < base) by (nonlinear_arith)
            requires
                2 <= base,
        ;
    }
}

/// The characters of the fixed parts of a new section.
proof fn lemma_section_texts()
    ensures
        section_header() =~= seq![
            '[',
            'S',
            'o',
            'f',
            't',
            'w',
            'a',
            'r',
            'e',
            '\\',
            '\\',
            'W',
            'i',
            'n',
            'e',
            '\\',
            '\\',
            'D',
            'l',
            'l',
            'O',
            'v',
            'e',
            'r',
            'r',
            'i',
            'd',
            'e',
            's',
            ']',
        ],
        "\n\n"@ =~= seq!['\n', '\n'],
        " "@ =~= seq![' '],
        "\n#time="@ =~= seq!['\n', '#', 't', 'i', 'm', 'e', '='],
        "\n"@ =~= seq!['\n'],
{
    reveal_strlit("\n\n");
    reveal_strlit("[Software\\\\Wine\\\\DllOverrides]");
    reveal_strlit(" ");
    reveal_strlit("\n#time=");
    reveal_strlit("\n");
}

/// The characters of what a new section holds before its entry.
proof fn lemma_lead_char(timestamp: nat, j: int)
    requires
        0 <= j < section_lead(timestamp).len(),
    ensures
        ({
            let c = section_lead(timestamp)[j];
            &&& c != '"'
            &&& (c == '[' <==> j == 2)
            &&& (j == 3 ==> c == 'S')
            &&& (j <= 28 ==> c != ']')
            &&& (j <= 10 ==> c != '=')
            &&& (2 <= j < 32 ==> c == section_header()[j - 2])
        }),
        section_lead(timestamp).len() >= 43,
{
    lemma_section_texts();
    lemma_digits(timestamp, 10);
    lemma_digits(timestamp, 16);
    let lead = section_lead(timestamp);
    let decimal = digits(timestamp, 10);
    let hex = digits(timestamp, 16);
    let header = section_header();
    if j < 2 {
    } else if j < 32 {
        assert(lead[j] == header[j - 2]);
    } else if j < 33 {
    } else if j < 33 + decimal.len() {
        assert(lead[j] == decimal[j - 33]);
    } else if j < 40 + decimal.len() {
        assert(lead[j] == "\n#time="@[j - 33 - decimal.len()]);
    } else if j < 40 + decimal.len() + hex.len() {
        assert(lead[j] == hex[j - 40 - decimal.len()]);
    } else {
    }
}

/// A new section holds the key once: in its entry.
proof fn lemma_block_holds_key(timestamp: nat)
    ensures
        section_block(timestamp) == section_lead(timestamp) + entry_before_section(),
        holds_once(section_block(timestamp), entry_key(), section_lead(timestamp).len() as int),
{
    lemma_entry_texts();
    lemma_entry_pieces();
    let lead = section_lead(timestamp);
    let block = section_block(timestamp);
    let entry = entry_before_section();
    lemma_lead_char(timestamp, 0);
    assert forall|j: int| 0 <= j <= 10 implies block[j] != '=' by {
        lemma_lead_char(timestamp, j);
    }
    assert(block.subrange(lead.len() as int, lead.len() as int + 12) =~= entry.subrange(0, 12));
    assert forall|j: int|
        0 <= j < block.len() - 1 && block[j] == '"' && #[trigger] block[j + 1] == 'x' implies j
        == lead.len() by {
        if j >= lead.len() {
            assert(block[j + 1] == entry[j - lead.len() + 1]);
        } else {
            lemma_lead_char(timestamp, j);
        }
    }
}

/// A new section holds the header once: behind its empty line.
proof fn lemma_block_holds_header(timestamp: nat)
    ensures
        holds_once(section_block(timestamp), section_header(), 2),
{
    lemma_entry_texts();
    lemma_section_texts();
    lemma_block_holds_key(timestamp);
    let lead = section_lead(timestamp);
    let block = section_block(timestamp);
    let entry = entry_before_section();
    let header = section_header();
    lemma_lead_char(timestamp, 0);
    assert(block.subrange(2, 32) =~= header) by {
        assert forall|j: int| 2 <= j < 32 implies block[j] == header[j - 2] by {
            lemma_lead_char(timestamp, j);
        }
    }
    assert forall|j: int| 0 <= j <= 28 implies block[j] != ']' by {
        lemma_lead_char(timestamp, j);
    }
    assert forall|j: int|
        0 <= j < block.len() - 1 && block[j] == '[' && #[trigger] block[j + 1] == 'S' implies j
        == 2 by {
        if j >= lead.len() {
            assert(block[j] == entry[j - lead.len()]);
        } else {
            lemma_lead_char(timestamp, j);
        }
    }
}

/// A document that holds neither the entry's key nor the overrides section
/// gets one new section at its end, and nothing else changes. It then holds
/// the section's header once and the key once: in that section.
pub proof fn lemma_new_section(content: Seq<char>, timestamp: nat)
    requires
        !contains_text(content, entry_key()),
        !contains_text(content, section_header()),
    ensures
        ensure_entry(content, timestamp) == content + section_lead(timestamp) + entry_line()
            + "\n"@,
        forall|q: int|
            occurs_at(ensure_entry(content, timestamp), section_header(), q) <==> q
                == content.len() + 2,
        forall|q: int|
            occurs_at(ensure_entry(content, timestamp), entry_key(), q) <==> q == content.len()
                + section_lead(timestamp).len(),
{
    lemma_block_holds_key(timestamp);
    lemma_block_holds_header(timestamp);
    let block = section_block(timestamp);
    let whole = content.subrange(0, content.len() as int) + block + content.subrange(
        content.len() as int,
        content.len() as int,
    );
    assert(whole =~= content + block);
    let end = content.len() as int;
    lemma_once(content, end, end, block, entry_key(), section_lead(timestamp).len() as int);
    lemma_once(content, end, end, block, section_header(), 2);
}

/// Where the entry goes in a document that holds the overrides section and
/// not the entry's key: behind the header of the section, at the line break
/// before the next section's header, or at the end of the document where no
/// section follows. What stood before that place and what stood behind it
/// are kept as they were, and the document then holds the key once: where
/// the entry begins, which is at that place or behind the line break that is
/// put there first.
pub proof fn lemma_entry_in_section(content: Seq<char>, timestamp: nat) -> (place: (int, int))
    requires
        !contains_text(content, entry_key()),
        contains_text(content, section_header()),
    ensures
        ({
            let (section, at) = place;
            let after = ensure_entry(content, timestamp);
            &&& is_first_occurrence(content, section_header(), 0, section)
            &&& section + section_header().len() <= at <= content.len()
            &&& forall|k: int|
                section + section_header().len() <= k < at ==> !occurs_at(
                    content,
                    section_start(),
                    k,
                )
            &&& if at < content.len() {
                &&& occurs_at(content, section_start(), at)
                &&& after == content.subrange(0, at) + line_before(content, at, entry_line())
                    + content.subrange(at, content.len() as int)
                &&& forall|q: int|
                    occurs_at(after, entry_key(), q) <==> q == (if content[at - 1] == '\n' {
                        at
                    } else {
                        at + 1
                    })
            } else {
                &&& after == content + "\n"@ + entry_line() + "\n"@
                &&& forall|q: int| occurs_at(after, entry_key(), q) <==> q == at + 1
            }
        }),
{
    lemma_entry_pieces();
    lemma_entry_texts();
    lemma_section_texts();
    let header = section_header();
    let somewhere = choose|i: int| occurs_at(content, header, i);
    lemma_first_occurrence_exists(content, header, 0, somewhere);
    let section = first_occurrence(content, header, 0)->0;
    let from = section + header.len();
    let after = ensure_entry(content, timestamp);
    let end = content.len() as int;
    match first_occurrence(content, section_start(), from) {
        Some(next) => {
            reveal_strlit("\n[");
            reveal_strlit("\n");
            assert(content[next] == '\n') by {
                assert(content.subrange(next, next + 2)[0] == section_start()[0]);
            }
            if content[next - 1] == '\n' {
                assert(after =~= content.subrange(0, next) + entry_before_section()
                    + content.subrange(next, end));
                lemma_once(content, next, next, entry_before_section(), entry_key(), 0);
            } else {
                assert(content.subrange(next, end) =~= seq!['\n'] + content.subrange(next + 1, end));
                assert(after =~= content.subrange(0, next) + entry_at_end() + content.subrange(
                    next + 1,
                    end,
                ));
                lemma_once(content, next, next + 1, entry_at_end(), entry_key(), 1);
            }
            (section, next)
        },
        None => {
            assert forall|k: int| from <= k implies !occurs_at(content, section_start(), k) by {
                if occurs_at(content, section_start(), k) {
                    lemma_first_occurrence_exists(content, section_start(), from, k);
                }
            }
            assert(after =~= content.subrange(0, end) + entry_at_end() + content.subrange(end, end));
            lemma_once(content, end, end, entry_at_end(), entry_key(), 1);
            (section, end)
        },
    }
}

/// Making sure of the override never writes the key twice: a document that
/// did not hold the key holds it once afterwards, here at `at`; one that held
/// it is left as it was.
pub proof fn lemma_ensure_entry_once(content: Seq<char>, timestamp: nat) -> (at: int)
    ensures
        contains_text(content, entry_key()) ==> ensure_entry(content, timestamp) == content,
        !contains_text(content, entry_key()) ==> forall|q: int|
            occurs_at(ensure_entry(content, timestamp), entry_key(), q) <==> q == at,
{
    if contains_text(content, entry_key()) {
        0
    } else {
        let (place, inserted, at) = lemma_entry_is_a_line(content, timestamp);
        at
    }
}

/// The override is written as a line of its own, and no line of the document
/// is joined to what is written. A document that does not hold the entry's
/// key gets `inserted` put into it at `place`, and nothing else changes; a
/// line break stands between `inserted` and what stands before it, and
/// between `inserted` and what stands behind it; the entry, at `at`, lies
/// within `inserted`, directly behind a line break and directly before one;
/// and the key stands nowhere else.
pub proof fn lemma_entry_is_a_line(content: Seq<char>, timestamp: nat) -> (r: (
    int,
    Seq<char>,
    int,
))
    requires
        !contains_text(content, entry_key()),
    ensures
        ({
            let (place, inserted, at) = r;
            let after = ensure_entry(content, timestamp);
            let behind = at + entry_line().len();
            &&& 0 <= place <= content.len()
            &&& after == content.subrange(0, place) + inserted + content.subrange(
                place,
                content.len() as int,
            )
            &&& inserted.len() > 0
            &&& place == 0 || content[place - 1] == '\n' || inserted.first() == '\n'
            &&& place == content.len() || content[place] == '\n' || inserted.last() == '\n'
            &&& place <= at
            &&& behind <= place + inserted.len()
            &&& occurs_at(after, entry_line(), at)
            &&& at > 0
            &&& after[at - 1] == '\n'
            &&& behind < after.len()
            &&& after[behind] == '\n'
            &&& forall|q: int| occurs_at(after, entry_key(), q) <==> q == at
        }),
{
    lemma_entry_texts();
    lemma_section_texts();
    let after = ensure_entry(content, timestamp);
    let entry = entry_line();
    let end = content.len() as int;
    if !contains_text(content, section_header()) {
        lemma_new_section(content, timestamp);
        lemma_block_holds_key(timestamp);
        lemma_lead_char(timestamp, 0);
        let lead = section_lead(timestamp);
        let block = section_block(timestamp);
        let at = end + lead.len();
        assert(after =~= content.subrange(0, end) + block + content.subrange(end, end));
        assert(lead.last() == '\n');
        assert(after.subrange(at, at + entry.len()) =~= entry);
        assert(after[at - 1] == lead.last());
        (end, block, at)
    } else {
        let (section, place) = lemma_entry_in_section(content, timestamp);
        if place < end {
            reveal_strlit("\n[");
            assert(content[place] == '\n') by {
                assert(content.subrange(place, place + 2)[0] == section_start()[0]);
            }
            let inserted = line_before(content, place, entry);
            if content[place - 1] == '\n' {
                assert(after.subrange(place, place + entry.len()) =~= entry);
                assert(after[place + entry.len()] == '\n');
                assert(after[place - 1] == content[place - 1]);
                (place, inserted, place)
            } else {
                assert(inserted =~= seq!['\n'] + entry);
                assert(after.subrange(place + 1, place + 1 + entry.len()) =~= entry);
                assert(after[place] == '\n');
                assert(after[place + 1 + entry.len()] == content[place]);
                (place, inserted, place + 1)
            }
        } else {
            let inserted = entry_at_end();
            assert(after =~= content.subrange(0, end) + inserted + content.subrange(end, end));
            assert(after.subrange(end + 1, end + 1 + entry.len()) =~= entry);
            assert(after[end] == '\n');
            assert(after[end + 1 + entry.len()] == '\n');
            (end, inserted, end + 1)
        }
    }
}

/// Once the override is in a document, making sure of it changes nothing:
/// doing it twice is doing it once, whatever the time.
pub proof fn lemma_ensure_entry_idempotent(content: Seq<char>, first: nat, second: nat)
    ensures
        ensure_entry(ensure_entry(content, first), second) == ensure_entry(content, first),
        contains_text(ensure_entry(content, first), entry_key()),
{
    let after = ensure_entry(content, first);
    if !contains_text(content, entry_key()) {
        let (place, inserted, at) = lemma_entry_is_a_line(content, first);
        assert(occurs_at(after, entry_key(), at));
    }
}

/// Deciding what to do to the registry asks only for what is not known yet,
/// and the decision stays when more is observed.
pub proof fn lemma_registry_patch_settles(
    prefix: Seq<char>,
    timestamp: nat,
    earlier: DiskView,
    later: DiskView,
)
    requires
        later.extends(earlier),
    ensures
        asks_anew(earlier, registry_patch(earlier, prefix, timestamp)),
        settled(registry_patch(earlier, prefix, timestamp), registry_patch(later, prefix, timestamp)),
{
}

} // verus!
