//! Helpers around locally stored character presets: deriving the game
//! version a preset file belongs to from its location, sanitizing a preset
//! title into a file name, and the preset folder's location.

use vstd::prelude::*;

use crate::locator::seg_end;
use crate::text::str_eq;

verus! {

/// A locally stored character preset.
pub struct LocalCharacterInfo {
    pub name: String,
    pub path: String,
    pub version: String,
}

/// The version a preset path belongs to: the path component after the first
/// `StarCitizen` component, or `Unknown` when there is none. Components are
/// separated by single backslashes.
pub open spec fn extract_version_spec(s: Seq<char>, p: int) -> Seq<char>
    decreases s.len() - p when 0 <= p <= s.len()
{
    let e = seg_end(s, p);
    if e < p || e > s.len() {
        "Unknown"@
    } else if s.subrange(p, e) == "StarCitizen"@ && e < s.len() {
        s.subrange(e + 1, seg_end(s, e + 1))
    } else if e < s.len() {
        extract_version_spec(s, e + 1)
    } else {
        "Unknown"@
    }
}

/// Derives the game version a preset file belongs to from its path.
pub fn extract_version_from_path(path: &str) -> (r: String)
    ensures
        r@ == extract_version_spec(path@, 0),
{
    extract_version_from(path, 0)
}

fn extract_version_from(path: &str, p: usize) -> (r: String)
    requires
        p <= path@.len(),
    ensures
        r@ == extract_version_spec(path@, p as int),
    decreases path@.len() - p,
{
    let len = path.unicode_len();
    let e = crate::locator::seg_end_exec(path, p);
    let comp = path.substring_char(p, e);
    if str_eq(comp, "StarCitizen") && e < len {
        let e2 = crate::locator::seg_end_exec(path, e + 1);
        path.substring_char(e + 1, e2).to_owned()
    } else if e < len {
        extract_version_from(path, e + 1)
    } else {
        "Unknown".to_owned()
    }
}

/// The characters a file name may not contain.
pub open spec fn is_forbidden_file_char(c: char) -> bool {
    c == '<' || c == '>' || c == ':' || c == '"' || c == '/' || c == '\\' || c == '|' || c == '?'
        || c == '*'
}

/// A preset title with every character a file name may not contain replaced
/// by an underscore.
pub open spec fn sanitized_title(s: Seq<char>) -> Seq<char> {
    s.map_values(
        |c: char|
            if is_forbidden_file_char(c) {
                '_'
            } else {
                c
            },
    )
}

/// Sanitizes a preset title into a usable file name stem.
pub fn sanitize_file_name(title: &str) -> (r: String)
    ensures
        r@ == sanitized_title(title@),
{
    let len = title.unicode_len();
    let mut out = String::new();
    let mut i: usize = 0;
    while i < len
        invariant
            i <= len,
            len == title@.len(),
            out@.len() == i,
            forall|j: int|
                0 <= j < i ==> out@[j] == (if is_forbidden_file_char(title@[j]) {
                    '_'
                } else {
                    title@[j]
                }),
        decreases len - i,
    {
        let c = title.get_char(i);
        let d = if c == '<' || c == '>' || c == ':' || c == '"' || c == '/' || c == '\\' || c == '|'
            || c == '?' || c == '*' {
            '_'
        } else {
            c
        };
        crate::text::push_char(&mut out, d);
        i += 1;
    }
    proof {
        assert(out@ =~= sanitized_title(title@));
    }
    out
}

/// The folder an installation keeps its character presets in.
pub fn characters_dir_path(base: &str) -> (r: String)
    ensures
        r@ == base@ + "\\user\\client\\0\\customcharacters"@,
{
    base.to_owned().concat("\\user\\client\\0\\customcharacters")
}

} // verus!
