//! Installation discovery: finds game installation paths and their channel
//! identifiers in the launcher's log text.
//!
//! A log line mentions installation paths in escaped form — separators are
//! doubled backslashes. A path fragment is drive letter, colon, separator,
//! any number of separator-delimited components, the product folder
//! `StarCitizen`, a separator, and a channel name. Lines are scanned newest
//! (last) to oldest so the most recent session wins; discovered paths are
//! normalized (separators collapsed, trailing separators removed) and
//! deduplicated; the channel identifier is the path component after the
//! product folder.

use vstd::prelude::*;

use crate::text::str_eq;

verus! {

// ---------------------------------------------------------------------------
// Character classes and maximal runs
// ---------------------------------------------------------------------------

/// ASCII letters, the admissible drive letters.
pub open spec fn is_ascii_letter(c: char) -> bool {
    let u = c as u32;
    (0x41 <= u && u <= 0x5A) || (0x61 <= u && u <= 0x7A)
}

/// The characters a channel name may consist of: letters, digits,
/// underscore, dot, at-sign, dash.
pub open spec fn is_channel_char(c: char) -> bool {
    let u = c as u32;
    ||| (0x30 <= u && u <= 0x39)
    ||| (0x41 <= u && u <= 0x5A)
    ||| (0x61 <= u && u <= 0x7A)
    ||| c == '_'
    ||| c == '.'
    ||| c == '@'
    ||| c == '-'
}

/// Whether `c` may start a drive specification.
pub fn is_ascii_letter_exec(c: char) -> (r: bool)
    ensures
        r == is_ascii_letter(c),
{
    let u = c as u32;
    (0x41 <= u && u <= 0x5A) || (0x61 <= u && u <= 0x7A)
}

/// Whether `c` may appear in a channel name.
pub fn is_channel_char_exec(c: char) -> (r: bool)
    ensures
        r == is_channel_char(c),
{
    let u = c as u32;
    (0x30 <= u && u <= 0x39) || (0x41 <= u && u <= 0x5A) || (0x61 <= u && u <= 0x7A) || c == '_'
        || c == '.' || c == '@' || c == '-'
}

/// End of the maximal backslash-free run starting at `p`.
pub open spec fn seg_end(s: Seq<char>, p: int) -> int
    decreases s.len() - p when 0 <= p <= s.len()
{
    if p < s.len() && s[p] != '\\' {
        seg_end(s, p + 1)
    } else {
        p
    }
}

/// End of the maximal channel-character run starting at `p`.
pub open spec fn chan_end(s: Seq<char>, p: int) -> int
    decreases s.len() - p when 0 <= p <= s.len()
{
    if p < s.len() && is_channel_char(s[p]) {
        chan_end(s, p + 1)
    } else {
        p
    }
}

/// Computes `seg_end`.
pub(crate) fn seg_end_exec(s: &str, p: usize) -> (r: usize)
    requires
        p <= s@.len(),
    ensures
        r as int == seg_end(s@, p as int),
        p <= r <= s@.len(),
    decreases s@.len() - p,
{
    let len = s.unicode_len();
    if p < len && s.get_char(p) != '\\' {
        seg_end_exec(s, p + 1)
    } else {
        p
    }
}

/// Computes `chan_end`.
fn chan_end_exec(s: &str, p: usize) -> (r: usize)
    requires
        p <= s@.len(),
    ensures
        r as int == chan_end(s@, p as int),
        p <= r <= s@.len(),
    decreases s@.len() - p,
{
    let len = s.unicode_len();
    if p < len && is_channel_char_exec(s.get_char(p)) {
        chan_end_exec(s, p + 1)
    } else {
        p
    }
}

// ---------------------------------------------------------------------------
// Matching one path fragment
// ---------------------------------------------------------------------------

/// Where a path fragment's component region ends when its components begin
/// at `p`: components are nonempty backslash-free runs joined by doubled
/// backslashes; the fragment is valid only if some component is the product
/// folder `StarCitizen` followed by a component starting with channel
/// characters. The last such component wins, and the fragment extends to the
/// end of the channel-character run after it.
pub open spec fn find_match_end(s: Seq<char>, p: int) -> Option<int>
    decreases s.len() - p when 0 <= p <= s.len()
{
    let e = seg_end(s, p);
    if e <= p || e > s.len() {
        None
    } else {
        let deeper: Option<int> = if e + 2 < s.len() && s[e] == '\\' && s[e + 1] == '\\' && s[e
            + 2] != '\\' {
            find_match_end(s, e + 2)
        } else {
            None
        };
        if deeper is Some {
            deeper
        } else if s.subrange(p, e) == "StarCitizen"@ && e + 2 < s.len() && s[e] == '\\' && s[e + 1]
            == '\\' && is_channel_char(s[e + 2]) {
            Some(chan_end(s, e + 2))
        } else {
            None
        }
    }
}

/// Computes `find_match_end`.
fn find_match_end_exec(s: &str, p: usize) -> (r: Option<usize>)
    requires
        p <= s@.len(),
    ensures
        match r {
            Some(e) => find_match_end(s@, p as int) == Some(e as int) && p < e <= s@.len(),
            None => find_match_end(s@, p as int) is None,
        },
    decreases s@.len() - p,
{
    let len = s.unicode_len();
    let e = seg_end_exec(s, p);
    if e <= p {
        return None;
    }
    let has_sep = len - e > 2 && s.get_char(e) == '\\' && s.get_char(e + 1) == '\\' && s.get_char(
        e + 2,
    ) != '\\';
    let deeper: Option<usize> = if has_sep {
        find_match_end_exec(s, e + 2)
    } else {
        None
    };
    match deeper {
        Some(d) => Some(d),
        None => {
            let comp = s.substring_char(p, e);
            if str_eq(comp, "StarCitizen") && len - e > 2 && s.get_char(e) == '\\' && s.get_char(
                e + 1,
            ) == '\\' && is_channel_char_exec(s.get_char(e + 2)) {
                Some(chan_end_exec(s, e + 2))
            } else {
                None
            }
        },
    }
}

/// Whether a path fragment can start at `i`: a drive letter, a colon and a
/// doubled backslash.
pub open spec fn candidate_start(s: Seq<char>, i: int) -> bool {
    &&& 0 <= i
    &&& i + 4 <= s.len()
    &&& is_ascii_letter(s[i])
    &&& s[i + 1] == ':'
    &&& s[i + 2] == '\\'
    &&& s[i + 3] == '\\'
}

/// The end of the path fragment starting at `i`, if one starts there.
pub open spec fn match_at(s: Seq<char>, i: int) -> Option<int> {
    if candidate_start(s, i) {
        find_match_end(s, i + 4)
    } else {
        None
    }
}

/// Computes `match_at`.
fn match_at_exec(s: &str, i: usize) -> (r: Option<usize>)
    requires
        i <= s@.len(),
    ensures
        match r {
            Some(e) => match_at(s@, i as int) == Some(e as int) && i < e <= s@.len(),
            None => match_at(s@, i as int) is None,
        },
{
    let len = s.unicode_len();
    if len - i < 4 {
        return None;
    }
    if !(is_ascii_letter_exec(s.get_char(i)) && s.get_char(i + 1) == ':' && s.get_char(i + 2)
        == '\\' && s.get_char(i + 3) == '\\') {
        return None;
    }
    find_match_end_exec(s, i + 4)
}

// ---------------------------------------------------------------------------
// Scanning a line for all fragments
// ---------------------------------------------------------------------------

/// All path fragments found from position `i` on: the scan tries each
/// position in turn and continues after the end of each fragment it finds.
pub open spec fn scan_from(s: Seq<char>, i: int) -> Seq<Seq<char>>
    decreases s.len() - i when 0 <= i <= s.len()
{
    if i >= s.len() {
        Seq::empty()
    } else {
        match match_at(s, i) {
            Some(e) => if i < e <= s.len() {
                seq![s.subrange(i, e)] + scan_from(s, e)
            } else {
                scan_from(s, i + 1)
            },
            None => scan_from(s, i + 1),
        }
    }
}

/// All path fragments in one log line, left to right.
pub open spec fn line_matches(s: Seq<char>) -> Seq<Seq<char>> {
    scan_from(s, 0)
}

/// The texts of a sequence of strings.
pub open spec fn strings_view(v: Seq<String>) -> Seq<Seq<char>> {
    v.map_values(|s: String| s@)
}

/// Finds every path fragment in one log line.
pub fn line_install_matches(s: &str) -> (r: Vec<String>)
    ensures
        strings_view(r@) == line_matches(s@),
{
    let len = s.unicode_len();
    let mut r: Vec<String> = Vec::new();
    let mut i: usize = 0;
    proof {
        assert(strings_view(r@) =~= Seq::<Seq<char>>::empty());
        assert(strings_view(r@) + scan_from(s@, 0) =~= scan_from(s@, 0));
    }
    while i < len
        invariant
            i <= len,
            len == s@.len(),
            line_matches(s@) == strings_view(r@) + scan_from(s@, i as int),
        decreases len - i,
    {
        let ghost pre = strings_view(r@);
        match match_at_exec(s, i) {
            Some(e) => {
                let m = s.substring_char(i, e).to_owned();
                r.push(m);
                proof {
                    assert(scan_from(s@, i as int) == seq![s@.subrange(i as int, e as int)]
                        + scan_from(s@, e as int));
                    assert(strings_view(r@) =~= pre.push(s@.subrange(i as int, e as int)));
                    assert(pre + scan_from(s@, i as int) =~= strings_view(r@) + scan_from(
                        s@,
                        e as int,
                    ));
                }
                i = e;
            },
            None => {
                proof {
                    assert(scan_from(s@, i as int) == scan_from(s@, i + 1));
                }
                i += 1;
            },
        }
    }
    proof {
        assert(scan_from(s@, i as int) =~= Seq::<Seq<char>>::empty());
        assert(strings_view(r@) + scan_from(s@, i as int) =~= strings_view(r@));
    }
    r
}

// ---------------------------------------------------------------------------
// Path normalization and deduplication
// ---------------------------------------------------------------------------

/// Collapses each doubled backslash into a single one, scanning left to
/// right over non-overlapping pairs.
pub open spec fn collapse_bs(s: Seq<char>) -> Seq<char>
    decreases s.len(),
{
    if s.len() == 0 {
        Seq::empty()
    } else if s.len() >= 2 && s[0] == '\\' && s[1] == '\\' {
        seq!['\\'] + collapse_bs(s.skip(2))
    } else {
        seq![s[0]] + collapse_bs(s.skip(1))
    }
}

/// Drops every trailing backslash.
pub open spec fn drop_trailing_bs(s: Seq<char>) -> Seq<char>
    decreases s.len(),
{
    if s.len() > 0 && s.last() == '\\' {
        drop_trailing_bs(s.drop_last())
    } else {
        s
    }
}

/// A discovered fragment's normal form: separators collapsed, trailing
/// separators removed. Paths are compared and deduplicated in this form.
pub open spec fn normalize_path_spec(s: Seq<char>) -> Seq<char> {
    drop_trailing_bs(collapse_bs(s))
}

/// Computes a path's normal form.
#[verifier::rlimit(50)]
pub fn normalize_path(s: &str) -> (r: String)
    ensures
        r@ == normalize_path_spec(s@),
{
    let len = s.unicode_len();
    let mut t: Vec<char> = Vec::new();
    let mut i: usize = 0;
    proof {
        assert(s@.skip(0) =~= s@);
        assert(t@ + collapse_bs(s@) =~= collapse_bs(s@));
    }
    while i < len
        invariant
            i <= len,
            len == s@.len(),
            collapse_bs(s@) == t@ + collapse_bs(s@.skip(i as int)),
        decreases len - i,
    {
        let ghost pre = t@;
        let c = s.get_char(i);
        if c == '\\' && i + 1 < len && s.get_char(i + 1) == '\\' {
            t.push('\\');
            proof {
                let rest = s@.skip(i as int);
                assert(rest.len() >= 2 && rest[0] == '\\' && rest[1] == '\\');
                assert(rest.skip(2) =~= s@.skip(i + 2));
                assert(collapse_bs(rest) == seq!['\\'] + collapse_bs(s@.skip(i + 2)));
                assert(pre + collapse_bs(rest) =~= t@ + collapse_bs(s@.skip(i + 2)));
            }
            i += 2;
        } else {
            t.push(c);
            proof {
                let rest = s@.skip(i as int);
                assert(rest.len() >= 1 && rest[0] == c);
                assert(!(rest.len() >= 2 && rest[0] == '\\' && rest[1] == '\\')) by {
                    if rest.len() >= 2 {
                        assert(rest[1] == s@[i + 1]);
                    }
                }
                assert(rest.skip(1) =~= s@.skip(i + 1));
                assert(collapse_bs(rest) == seq![c] + collapse_bs(s@.skip(i + 1)));
                assert(pre + collapse_bs(rest) =~= t@ + collapse_bs(s@.skip(i + 1)));
            }
            i += 1;
        }
    }
    proof {
        assert(s@.skip(len as int) =~= Seq::<char>::empty());
        assert(collapse_bs(s@) =~= t@);
    }

    let tlen = t.len();
    let mut hi: usize = tlen;
    proof {
        assert(t@ =~= t@.subrange(0, tlen as int));
    }
    while hi > 0 && t[hi - 1] == '\\'
        invariant
            hi <= tlen,
            tlen == t@.len(),
            collapse_bs(s@) == t@,
            drop_trailing_bs(t@) == drop_trailing_bs(t@.subrange(0, hi as int)),
        decreases hi,
    {
        proof {
            let cur = t@.subrange(0, hi as int);
            assert(cur.last() == t@[hi - 1]);
            assert(cur.drop_last() =~= t@.subrange(0, hi - 1));
            assert(t@ =~= t@.subrange(0, tlen as int));
        }
        hi -= 1;
    }
    proof {
        let cur = t@.subrange(0, hi as int);
        if hi > 0 {
            assert(cur.last() == t@[hi - 1]);
        }
        assert(drop_trailing_bs(cur) == cur);
        assert(t@ =~= t@.subrange(0, tlen as int));
        assert(normalize_path_spec(s@) == t@.subrange(0, hi as int));
    }

    let mut out = String::new();
    let mut k: usize = 0;
    while k < hi
        invariant
            k <= hi <= tlen,
            tlen == t@.len(),
            out@ == t@.subrange(0, k as int),
        decreases hi - k,
    {
        crate::text::push_char(&mut out, t[k]);
        proof {
            assert(out@ =~= t@.subrange(0, k + 1));
        }
        k += 1;
    }
    out
}

/// One step of deduplicated collection: the fragment's normal form is added
/// unless it is empty or already present.
pub open spec fn add_candidate(acc: Seq<Seq<char>>, m: Seq<char>) -> Seq<Seq<char>> {
    let n = normalize_path_spec(m);
    if n.len() > 0 && !acc.contains(n) {
        acc.push(n)
    } else {
        acc
    }
}

/// Collects the fragments of one line, left to right.
pub open spec fn add_matches(acc: Seq<Seq<char>>, ms: Seq<Seq<char>>) -> Seq<Seq<char>>
    decreases ms.len(),
{
    if ms.len() == 0 {
        acc
    } else {
        add_matches(add_candidate(acc, ms.first()), ms.drop_first())
    }
}

/// Collects all lines' fragments, newest (last) line first.
pub open spec fn collect_paths_rev(lines: Seq<Seq<char>>, acc: Seq<Seq<char>>) -> Seq<Seq<char>>
    decreases lines.len(),
{
    if lines.len() == 0 {
        acc
    } else {
        collect_paths_rev(lines.drop_last(), add_matches(acc, line_matches(lines.last())))
    }
}

/// Every installation path candidate in a log, in discovery order: lines are
/// scanned newest to oldest, paths normalized and deduplicated, first
/// discovery wins.
pub open spec fn install_path_candidates(lines: Seq<Seq<char>>) -> Seq<Seq<char>> {
    collect_paths_rev(lines, Seq::empty())
}

/// Normalizes a discovered fragment and adds it to the list unless its
/// normal form is empty or already present.
pub fn check_and_add_path(path: &str, sc_install_paths: &mut Vec<String>)
    ensures
        strings_view(final(sc_install_paths)@) == add_candidate(
            strings_view(old(sc_install_paths)@),
            path@,
        ),
{
    let n = normalize_path(path);
    if n.as_str().is_empty() {
        return;
    }
    let mut j: usize = 0;
    while j < sc_install_paths.len()
        invariant
            j <= sc_install_paths@.len(),
            sc_install_paths@ == old(sc_install_paths)@,
            n@ == normalize_path_spec(path@),
            n@.len() > 0,
            forall|k: int| 0 <= k < j ==> strings_view(sc_install_paths@)[k] != n@,
        decreases sc_install_paths@.len() - j,
    {
        if str_eq(sc_install_paths[j].as_str(), n.as_str()) {
            proof {
                assert(strings_view(sc_install_paths@)[j as int] == n@);
                assert(strings_view(sc_install_paths@).contains(n@));
            }
            return;
        }
        j += 1;
    }
    proof {
        assert(!strings_view(sc_install_paths@).contains(n@)) by {
            assert(forall|k: int|
                0 <= k < strings_view(sc_install_paths@).len()
                    ==> strings_view(sc_install_paths@)[k] != n@);
        }
    }
    let ghost pre = strings_view(sc_install_paths@);
    sc_install_paths.push(n);
    proof {
        assert(strings_view(sc_install_paths@) =~= pre.push(normalize_path_spec(path@)));
    }
}

/// Discovers every installation path candidate in the launcher's log lines:
/// newest line first, all fragments per line, normalized and deduplicated.
/// The result holds no duplicates and no empty path.
pub fn extract_install_paths(lines: &Vec<String>) -> (r: Vec<String>)
    ensures
        strings_view(r@) == install_path_candidates(strings_view(lines@)),
{
    let mut r: Vec<String> = Vec::new();
    let mut k: usize = 0;
    let n = lines.len();
    proof {
        assert(strings_view(lines@).subrange(0, n as int) =~= strings_view(lines@));
        assert(strings_view(r@) =~= Seq::<Seq<char>>::empty());
    }
    while k < n
        invariant
            k <= n,
            n == lines@.len(),
            install_path_candidates(strings_view(lines@)) == collect_paths_rev(
                strings_view(lines@).subrange(0, (n - k) as int),
                strings_view(r@),
            ),
        decreases n - k,
    {
        let line = &lines[n - 1 - k];
        let ms = line_install_matches(line.as_str());
        let ghost lines_left = strings_view(lines@).subrange(0, (n - k) as int);
        proof {
            assert(lines_left.last() == strings_view(lines@)[n - 1 - k]);
            assert(lines_left.last() == line@);
            assert(lines_left.drop_last() =~= strings_view(lines@).subrange(0, (n - k - 1) as int));
            assert(collect_paths_rev(lines_left, strings_view(r@)) == collect_paths_rev(
                lines_left.drop_last(),
                add_matches(strings_view(r@), line_matches(line@)),
            ));
        }
        let mut j: usize = 0;
        let mlen = ms.len();
        let ghost acc0 = strings_view(r@);
        proof {
            assert(strings_view(ms@).skip(0) =~= strings_view(ms@));
        }
        while j < mlen
            invariant
                j <= mlen,
                mlen == ms@.len(),
                add_matches(acc0, strings_view(ms@)) == add_matches(
                    strings_view(r@),
                    strings_view(ms@).skip(j as int),
                ),
            decreases mlen - j,
        {
            let ghost before = strings_view(r@);
            let ghost rest = strings_view(ms@).skip(j as int);
            check_and_add_path(ms[j].as_str(), &mut r);
            proof {
                assert(rest.len() > 0);
                assert(rest.first() == strings_view(ms@)[j as int]);
                assert(rest.first() == ms@[j as int]@);
                assert(rest.drop_first() =~= strings_view(ms@).skip(j + 1));
                assert(add_matches(before, rest) == add_matches(
                    add_candidate(before, ms@[j as int]@),
                    strings_view(ms@).skip(j + 1),
                ));
            }
            j += 1;
        }
        proof {
            assert(strings_view(ms@).skip(mlen as int) =~= Seq::<Seq<char>>::empty());
            assert(add_matches(strings_view(r@), Seq::<Seq<char>>::empty()) == strings_view(r@));
            assert(add_matches(acc0, strings_view(ms@)) == strings_view(r@));
            assert(strings_view(ms@) == line_matches(line@));
        }
        k += 1;
    }
    proof {
        assert(strings_view(lines@).subrange(0, 0) =~= Seq::<Seq<char>>::empty());
        assert(collect_paths_rev(Seq::<Seq<char>>::empty(), strings_view(r@)) == strings_view(r@));
    }
    r
}

// ---------------------------------------------------------------------------
// Channel identifiers and the version map
// ---------------------------------------------------------------------------

/// Length of the maximal channel-character run at the end of `t`.
pub open spec fn rev_chan_len(t: Seq<char>) -> int
    decreases t.len(),
{
    if t.len() > 0 && is_channel_char(t.last()) {
        1 + rev_chan_len(t.drop_last())
    } else {
        0
    }
}

/// The channel identifier a normalized installation path carries: the final
/// path component, which must be a nonempty channel-character run directly
/// preceded by the product folder; at most one trailing separator is
/// tolerated. Everything else yields `UNKNOWN`, which discovery discards.
pub open spec fn channel_id_spec(s: Seq<char>) -> Seq<char> {
    let t = if s.len() > 0 && s.last() == '\\' {
        s.drop_last()
    } else {
        s
    };
    let start = t.len() - rev_chan_len(t);
    if rev_chan_len(t) > 0 && start >= 12 && t.subrange(start - 12, start) == "StarCitizen\\"@ {
        t.subrange(start, t.len() as int)
    } else {
        "UNKNOWN"@
    }
}

/// Derives the channel identifier from a normalized installation path.
pub fn get_game_channel_id(install_path: &str) -> (r: String)
    ensures
        r@ == channel_id_spec(install_path@),
{
    let len = install_path.unicode_len();
    let tlen: usize = if len > 0 && install_path.get_char(len - 1) == '\\' {
        len - 1
    } else {
        len
    };
    let t = install_path.substring_char(0, tlen);
    proof {
        if len > 0 && install_path@.last() == '\\' {
            assert(t@ =~= install_path@.drop_last());
        } else {
            assert(t@ =~= install_path@);
        }
    }
    let mut j: usize = tlen;
    proof {
        assert(t@ =~= t@.subrange(0, tlen as int));
    }
    while j > 0 && is_channel_char_exec(t.get_char(j - 1))
        invariant
            j <= tlen,
            tlen == t@.len(),
            rev_chan_len(t@) == rev_chan_len(t@.subrange(0, j as int)) + (tlen - j),
        decreases j,
    {
        proof {
            let cur = t@.subrange(0, j as int);
            assert(cur.last() == t@[j - 1]);
            assert(cur.drop_last() =~= t@.subrange(0, j - 1));
        }
        j -= 1;
    }
    proof {
        let cur = t@.subrange(0, j as int);
        if j > 0 {
            assert(cur.last() == t@[j - 1]);
        }
        assert(rev_chan_len(cur) == 0);
        assert(rev_chan_len(t@) == tlen - j);
    }
    if j == tlen {
        return "UNKNOWN".to_owned();
    }
    if j < 12 {
        return "UNKNOWN".to_owned();
    }
    let prefix = t.substring_char(j - 12, j);
    if str_eq(prefix, "StarCitizen\\") {
        t.substring_char(j, tlen).to_owned()
    } else {
        "UNKNOWN".to_owned()
    }
}

/// What discovery reports for one installed version.
pub struct VersionInfo {
    pub path: String,
    pub translated: bool,
    pub up_to_date: bool,
}

/// Every detected version, keyed by channel identifier. Keys are unique.
pub struct VersionPaths {
    pub versions: Vec<(String, VersionInfo)>,
}

/// The (channel, path) pairs of a version list.
pub open spec fn entries_view(v: Seq<(String, VersionInfo)>) -> Seq<(Seq<char>, Seq<char>)> {
    v.map_values(|e: (String, VersionInfo)| (e.0@, e.1.path@))
}

/// Whether a channel identifier already occurs among the entries.
pub open spec fn has_channel(acc: Seq<(Seq<char>, Seq<char>)>, ch: Seq<char>) -> bool {
    exists|i: int| 0 <= i < acc.len() && (#[trigger] acc[i]).0 == ch
}

/// Builds the version map from the candidate paths kept by the caller:
/// a path is entered under its channel identifier unless the identifier is
/// `UNKNOWN` or already present.
pub open spec fn versions_from(
    paths: Seq<Seq<char>>,
    keep: Seq<bool>,
    i: int,
    acc: Seq<(Seq<char>, Seq<char>)>,
) -> Seq<(Seq<char>, Seq<char>)>
    decreases paths.len() - i when 0 <= i <= paths.len()
{
    if i >= paths.len() {
        acc
    } else {
        let ch = channel_id_spec(paths[i]);
        let acc2 = if i < keep.len() && keep[i] && ch != "UNKNOWN"@ && !has_channel(acc, ch) {
            acc.push((ch, paths[i]))
        } else {
            acc
        };
        versions_from(paths, keep, i + 1, acc2)
    }
}

/// The version map discovery returns for the given candidates and
/// existence verdicts.
pub open spec fn versions_of(paths: Seq<Seq<char>>, keep: Seq<bool>) -> Seq<(Seq<char>, Seq<char>)> {
    versions_from(paths, keep, 0, Seq::empty())
}

/// Builds the version map for the discovered candidate paths. `keep[i]`
/// says whether candidate `i` passed the caller's existence check (both
/// sentinel files present); pass all-true to skip that filter. Channel
/// identifiers in the result are unique; `translated` and `up_to_date`
/// start out `false`.
pub fn get_star_citizen_versions_sync(paths: &Vec<String>, keep: &Vec<bool>) -> (r: VersionPaths)
    requires
        keep@.len() == paths@.len(),
    ensures
        entries_view(r.versions@) == versions_of(strings_view(paths@), keep@),
        forall|i: int|
            0 <= i < r.versions@.len() ==> !(#[trigger] r.versions@[i]).1.translated
                && !r.versions@[i].1.up_to_date,
{
    let mut versions: Vec<(String, VersionInfo)> = Vec::new();
    let n = paths.len();
    let mut i: usize = 0;
    proof {
        assert(entries_view(versions@) =~= Seq::<(Seq<char>, Seq<char>)>::empty());
    }
    while i < n
        invariant
            i <= n,
            n == paths@.len(),
            keep@.len() == paths@.len(),
            versions_of(strings_view(paths@), keep@) == versions_from(
                strings_view(paths@),
                keep@,
                i as int,
                entries_view(versions@),
            ),
            forall|k: int|
                0 <= k < versions@.len() ==> !(#[trigger] versions@[k]).1.translated
                    && !versions@[k].1.up_to_date,
        decreases n - i,
    {
        let ghost acc = entries_view(versions@);
        let ghost pv = strings_view(paths@);
        let ch = get_game_channel_id(paths[i].as_str());
        proof {
            assert(pv[i as int] == paths@[i as int]@);
            assert(ch@ == channel_id_spec(pv[i as int]));
        }
        let mut dup = false;
        let mut j: usize = 0;
        while j < versions.len() && !dup
            invariant
                j <= versions@.len(),
                dup ==> has_channel(entries_view(versions@), ch@),
                !dup ==> forall|k: int|
                    0 <= k < j ==> (#[trigger] entries_view(versions@)[k]).0 != ch@,
            decreases versions@.len() - j + (if dup { 0int } else { 1int }),
        {
            if str_eq(versions[j].0.as_str(), ch.as_str()) {
                proof {
                    assert((entries_view(versions@)[j as int]).0 == ch@);
                }
                dup = true;
            } else {
                j += 1;
            }
        }
        proof {
            if !dup {
                assert(!has_channel(entries_view(versions@), ch@)) by {
                    assert(forall|k: int|
                        0 <= k < entries_view(versions@).len()
                            ==> (#[trigger] entries_view(versions@)[k]).0 != ch@);
                }
            }
        }
        if keep[i] && !dup && !str_eq(ch.as_str(), "UNKNOWN") {
            let info = VersionInfo { path: paths[i].clone(), translated: false, up_to_date: false };
            let ghost pre = entries_view(versions@);
            versions.push((ch, info));
            proof {
                assert(entries_view(versions@) =~= pre.push(
                    (channel_id_spec(pv[i as int]), pv[i as int]),
                ));
            }
        }
        proof {
            assert(versions_from(pv, keep@, i as int, acc) == versions_from(
                pv,
                keep@,
                i + 1,
                entries_view(versions@),
            ));
        }
        i += 1;
    }
    VersionPaths { versions }
}

/// The game executable a live installation carries.
pub fn sentinel_exe_path(path: &str) -> (r: String)
    ensures
        r@ == path@ + "\\Bin64\\StarCitizen.exe"@,
{
    path.to_owned().concat("\\Bin64\\StarCitizen.exe")
}

/// The data archive a live installation carries.
pub fn sentinel_data_path(path: &str) -> (r: String)
    ensures
        r@ == path@ + "\\Data.p4k"@,
{
    path.to_owned().concat("\\Data.p4k")
}

// ---------------------------------------------------------------------------
// Laws
// ---------------------------------------------------------------------------

/// No two entries are equal.
pub open spec fn distinct_seqs(v: Seq<Seq<char>>) -> bool {
    forall|i: int, j: int| 0 <= i < j < v.len() ==> v[i] != v[j]
}

proof fn lemma_add_candidate_distinct(acc: Seq<Seq<char>>, m: Seq<char>)
    requires
        distinct_seqs(acc),
    ensures
        distinct_seqs(add_candidate(acc, m)),
{
    let n = normalize_path_spec(m);
    if n.len() > 0 && !acc.contains(n) {
        let r = acc.push(n);
        assert forall|i: int, j: int| 0 <= i < j < r.len() implies r[i] != r[j] by {
            if j < acc.len() {
            } else {
                assert(r[j] == n);
                assert(r[i] == acc[i]);
                assert(!acc.contains(n));
            }
        }
    }
}

proof fn lemma_add_matches_distinct(acc: Seq<Seq<char>>, ms: Seq<Seq<char>>)
    requires
        distinct_seqs(acc),
    ensures
        distinct_seqs(add_matches(acc, ms)),
    decreases ms.len(),
{
    if ms.len() > 0 {
        lemma_add_candidate_distinct(acc, ms.first());
        lemma_add_matches_distinct(add_candidate(acc, ms.first()), ms.drop_first());
    }
}

proof fn lemma_collect_distinct(lines: Seq<Seq<char>>, acc: Seq<Seq<char>>)
    requires
        distinct_seqs(acc),
    ensures
        distinct_seqs(collect_paths_rev(lines, acc)),
    decreases lines.len(),
{
    if lines.len() > 0 {
        lemma_add_matches_distinct(acc, line_matches(lines.last()));
        lemma_collect_distinct(lines.drop_last(), add_matches(acc, line_matches(lines.last())));
    }
}

/// Discovery deduplicates by normalized path: the candidate list never holds
/// the same path twice.
pub proof fn lemma_candidates_distinct(lines: Seq<Seq<char>>)
    ensures
        distinct_seqs(install_path_candidates(lines)),
{
    lemma_collect_distinct(lines, Seq::empty());
}

proof fn lemma_versions_from_unique(
    paths: Seq<Seq<char>>,
    keep: Seq<bool>,
    i: int,
    acc: Seq<(Seq<char>, Seq<char>)>,
)
    requires
        0 <= i <= paths.len(),
        forall|a: int, b: int|
            0 <= a < b < acc.len() ==> (#[trigger] acc[a]).0 != (#[trigger] acc[b]).0,
    ensures
        ({
            let r = versions_from(paths, keep, i, acc);
            forall|a: int, b: int|
                0 <= a < b < r.len() ==> (#[trigger] r[a]).0 != (#[trigger] r[b]).0
        }),
    decreases paths.len() - i,
{
    if i >= paths.len() {
        assert(versions_from(paths, keep, i, acc) == acc);
    } else {
        let ch = channel_id_spec(paths[i]);
        if i < keep.len() && keep[i] && ch != "UNKNOWN"@ && !has_channel(acc, ch) {
            let acc2 = acc.push((ch, paths[i]));
            assert forall|a: int, b: int| 0 <= a < b < acc2.len() implies (#[trigger] acc2[a]).0
                != (#[trigger] acc2[b]).0 by {
                if b == acc.len() {
                    assert(acc2[a] == acc[a]);
                    assert(acc[a].0 != ch) by {
                        if acc[a].0 == ch {
                            assert(has_channel(acc, ch));
                        }
                    }
                }
            }
            lemma_versions_from_unique(paths, keep, i + 1, acc2);
            assert(versions_from(paths, keep, i, acc) == versions_from(paths, keep, i + 1, acc2));
        } else {
            lemma_versions_from_unique(paths, keep, i + 1, acc);
            assert(versions_from(paths, keep, i, acc) == versions_from(paths, keep, i + 1, acc));
        }
    }
}

/// The version map keys each installation by channel: no channel identifier
/// occurs twice.
pub proof fn lemma_versions_unique(paths: Seq<Seq<char>>, keep: Seq<bool>)
    ensures
        ({
            let r = versions_of(paths, keep);
            forall|a: int, b: int|
                0 <= a < b < r.len() ==> (#[trigger] r[a]).0 != (#[trigger] r[b]).0
        }),
{
    lemma_versions_from_unique(paths, keep, 0, Seq::empty());
}

} // verus!
