//! Small text utilities shared by the locator, the checker and the codec:
//! substring search, equality helpers, and the one trusted bridge from bytes
//! to text.

use vstd::prelude::*;

verus! {

/// `needle` occurs as a contiguous run inside `hay`.
pub open spec fn contains_seq(hay: Seq<char>, needle: Seq<char>) -> bool {
    exists|i: int| #[trigger] occurs_at(hay, needle, i)
}

/// Whether `hay` has `needle` starting at position `i`.
pub open spec fn occurs_at(hay: Seq<char>, needle: Seq<char>, i: int) -> bool {
    0 <= i && i + needle.len() <= hay.len() && hay.subrange(i, i + needle.len()) == needle
}

/// Character-by-character equality of two string slices.
pub fn str_eq(a: &str, b: &str) -> (r: bool)
    ensures
        r == (a@ == b@),
{
    let a_len = a.unicode_len();
    let b_len = b.unicode_len();
    if a_len != b_len {
        assert(a@ != b@) by {
            assert(a@.len() != b@.len());
        }
        return false;
    }
    let mut i: usize = 0;
    while i < a_len
        invariant
            i <= a_len,
            a_len == a@.len(),
            a_len == b@.len(),
            forall|j: int| 0 <= j < i ==> a@[j] == b@[j],
        decreases a_len - i,
    {
        if a.get_char(i) != b.get_char(i) {
            assert(a@ != b@) by {
                assert(a@[i as int] != b@[i as int]);
            }
            return false;
        }
        i += 1;
    }
    assert(a@ =~= b@);
    true
}

/// Whether `needle` occurs at position `i` of `hay`.
fn matches_at(hay: &str, needle: &str, i: usize) -> (r: bool)
    requires
        i + needle@.len() <= hay@.len(),
        i + needle@.len() <= usize::MAX,
    ensures
        r == occurs_at(hay@, needle@, i as int),
{
    let n = needle.unicode_len();
    let mut j: usize = 0;
    while j < n
        invariant
            j <= n,
            n == needle@.len(),
            i + n <= hay@.len(),
            i + n <= usize::MAX,
            forall|k: int| 0 <= k < j ==> hay@[i + k] == needle@[k],
        decreases n - j,
    {
        if hay.get_char(i + j) != needle.get_char(j) {
            assert(!occurs_at(hay@, needle@, i as int)) by {
                assert(hay@.subrange(i as int, i + n) != needle@) by {
                    assert(hay@.subrange(i as int, i + n)[j as int] != needle@[j as int]);
                }
            }
            return false;
        }
        j += 1;
    }
    assert(hay@.subrange(i as int, i + n) =~= needle@);
    true
}

/// Substring search: whether `needle` occurs anywhere in `hay`.
pub fn str_contains(hay: &str, needle: &str) -> (r: bool)
    ensures
        r == contains_seq(hay@, needle@),
{
    let h = hay.unicode_len();
    let n = needle.unicode_len();
    if n > h {
        assert(!contains_seq(hay@, needle@));
        return false;
    }
    if n == 0 {
        assert(occurs_at(hay@, needle@, 0)) by {
            assert(hay@.subrange(0, 0) =~= needle@);
        }
        return true;
    }
    let mut i: usize = 0;
    while i <= h - n
        invariant
            1 <= n <= h,
            h == hay@.len(),
            n == needle@.len(),
            i <= h - n + 1,
            forall|k: int| 0 <= k < i ==> !occurs_at(hay@, needle@, k),
        decreases h - i,
    {
        if matches_at(hay, needle, i) {
            return true;
        }
        i += 1;
    }
    assert(!contains_seq(hay@, needle@)) by {
        assert(forall|k: int| #![auto] occurs_at(hay@, needle@, k) ==> 0 <= k <= h - n);
    }
    false
}

/// Element-wise equality of two character vectors.
pub fn chars_eq(a: &Vec<char>, b: &Vec<char>) -> (r: bool)
    ensures
        r == (a@ == b@),
{
    if a.len() != b.len() {
        assert(a@ != b@) by {
            assert(a@.len() != b@.len());
        }
        return false;
    }
    let mut i: usize = 0;
    while i < a.len()
        invariant
            i <= a.len(),
            a.len() == b.len(),
            forall|j: int| 0 <= j < i ==> a@[j] == b@[j],
        decreases a.len() - i,
    {
        if a[i] != b[i] {
            assert(a@ != b@) by {
                assert(a@[i as int] != b@[i as int]);
            }
            return false;
        }
        i += 1;
    }
    assert(a@ =~= b@);
    true
}

/// Appends one character to a `String`.
///
/// Relies on `String::push`: appends the given character to the end of the
/// string.
#[verifier::external_body]
pub(crate) fn push_char(s: &mut String, c: char)
    ensures
        final(s)@ == old(s)@.push(c),
{
    s.push(c);
}

/// Decodes a byte vector as UTF-8 text.
///
/// Relies on `String::from_utf8`: returns the decoded string when the bytes
/// are valid UTF-8 and an error otherwise. The contract is stated with
/// vstd's own UTF-8 model.
#[verifier::external_body]
pub(crate) fn decode_utf8_bytes(b: Vec<u8>) -> (r: Option<String>)
    ensures
        r is Some <==> vstd::utf8::valid_utf8(b@),
        r is Some ==> r.unwrap()@ == vstd::utf8::decode_utf8(b@),
{
    String::from_utf8(b).ok()
}

} // verus!
