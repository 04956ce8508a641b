//! Paths as text: segments separated by `/`.

use vstd::prelude::*;

verus! {

/// `part` adjoined to `base`. An absolute `part` replaces `base`; otherwise the
/// two are joined by one `/`, which is left out where `base` is empty or ends
/// in one.
pub open spec fn join(base: Seq<char>, part: Seq<char>) -> Seq<char> {
    if part.len() > 0 && part[0] == '/' {
        part
    } else if base.len() == 0 || base.last() == '/' {
        base + part
    } else {
        base + seq!['/'] + part
    }
}

/// `part` adjoined to `base`.
pub fn join_path(base: &str, part: &str) -> (r: String)
    ensures
        r@ == join(base@, part@),
{
    if part.unicode_len() > 0 && part.get_char(0) == '/' {
        return String::from_str(part);
    }
    let base_len = base.unicode_len();
    let mut out = String::from_str(base);
    if base_len > 0 && base.get_char(base_len - 1) != '/' {
        out.push('/');
    }
    out.append(part);
    out
}

/// `path` as a message shows it: in quotes, with the characters escaped that
/// cannot be shown as they are.
pub uninterp spec fn shown(path: Seq<char>) -> Seq<char>;

/// `path` as a message shows it.
///
/// This is what `std::path::Path` writes of itself through `std::fmt::Debug`,
/// which depends on the path alone.
#[verifier::external_body]
pub(crate) fn show_path(path: &str) -> (r: String)
    ensures
        r@ == shown(path@),
{
    format!("{:?}", std::path::Path::new(path))
}

} // verus!
