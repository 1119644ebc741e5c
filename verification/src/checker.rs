//! Translation state checking: which locales are supported, whether an
//! installation carries the localized overlay, and whether the installed
//! overlay text matches the remote source after normalization.
//!
//! All functions work on plain values — file contents and existence flags are
//! handed in by the caller, so every decision here is verified.

use vstd::prelude::*;
use vstd::utf8::{decode_utf8, valid_utf8};

use crate::text::{chars_eq, contains_seq, decode_utf8_bytes, occurs_at, str_contains};

verus! {

// ---------------------------------------------------------------------------
// Locale lookup
// ---------------------------------------------------------------------------

/// The language codes resolving to the French overlay folder: "fr" in any
/// letter case.
pub open spec fn is_lang_fr(s: Seq<char>) -> bool {
    s.len() == 2 && (s[0] == 'f' || s[0] == 'F') && (s[1] == 'r' || s[1] == 'R')
}

/// Converts a language code into the name of its localization folder.
/// The lookup table is closed: only French is known.
pub fn get_language_folder(lang: &str) -> (r: Option<&str>)
    ensures
        r is Some <==> is_lang_fr(lang@),
        r is Some ==> r.unwrap()@ == "french_(france)"@,
{
    if lang.unicode_len() != 2 {
        return None;
    }
    let c0 = lang.get_char(0);
    let c1 = lang.get_char(1);
    if (c0 == 'f' || c0 == 'F') && (c1 == 'r' || c1 == 'R') {
        Some("french_(france)")
    } else {
        None
    }
}

// ---------------------------------------------------------------------------
// Text normalization: CRLF -> LF, then surrounding whitespace removed
// ---------------------------------------------------------------------------

/// The Unicode whitespace characters, as `str::trim` understands them.
pub open spec fn is_space_char(c: char) -> bool {
    let u = c as u32;
    ||| u == 0x09
    ||| u == 0x0A
    ||| u == 0x0B
    ||| u == 0x0C
    ||| u == 0x0D
    ||| u == 0x20
    ||| u == 0x85
    ||| u == 0xA0
    ||| u == 0x1680
    ||| (0x2000 <= u && u <= 0x200A)
    ||| u == 0x2028
    ||| u == 0x2029
    ||| u == 0x202F
    ||| u == 0x205F
    ||| u == 0x3000
}

/// Every character of `s` is whitespace.
pub open spec fn all_space(s: Seq<char>) -> bool {
    forall|i: int| 0 <= i < s.len() ==> is_space_char(#[trigger] s[i])
}

/// Whether `c` is a whitespace character.
pub fn is_space(c: char) -> (r: bool)
    ensures
        r == is_space_char(c),
{
    let u = c as u32;
    u == 0x09 || u == 0x0A || u == 0x0B || u == 0x0C || u == 0x0D || u == 0x20 || u == 0x85
        || u == 0xA0 || u == 0x1680 || (0x2000 <= u && u <= 0x200A) || u == 0x2028 || u == 0x2029
        || u == 0x202F || u == 0x205F || u == 0x3000
}

/// Replaces each carriage-return/line-feed pair by a single line feed,
/// scanning left to right over non-overlapping pairs.
pub open spec fn crlf_to_lf(s: Seq<char>) -> Seq<char>
    decreases s.len(),
{
    if s.len() == 0 {
        Seq::empty()
    } else if s.len() >= 2 && s[0] == '\r' && s[1] == '\n' {
        seq!['\n'] + crlf_to_lf(s.skip(2))
    } else {
        seq![s[0]] + crlf_to_lf(s.skip(1))
    }
}

/// Drops the whitespace prefix of `s`.
pub open spec fn drop_leading_space(s: Seq<char>) -> Seq<char>
    decreases s.len(),
{
    if s.len() > 0 && is_space_char(s.first()) {
        drop_leading_space(s.drop_first())
    } else {
        s
    }
}

/// Drops the whitespace suffix of `s`.
pub open spec fn drop_trailing_space(s: Seq<char>) -> Seq<char>
    decreases s.len(),
{
    if s.len() > 0 && is_space_char(s.last()) {
        drop_trailing_space(s.drop_last())
    } else {
        s
    }
}

/// Removes leading and trailing whitespace.
pub open spec fn trim_space(s: Seq<char>) -> Seq<char> {
    drop_trailing_space(drop_leading_space(s))
}

/// The normal form under which two overlay texts are compared: line endings
/// folded to LF, surrounding whitespace removed.
pub open spec fn normalize_text_spec(s: Seq<char>) -> Seq<char> {
    trim_space(crlf_to_lf(s))
}

/// Computes the normal form of a text.
pub fn normalize_text(s: &str) -> (r: Vec<char>)
    ensures
        r@ == normalize_text_spec(s@),
{
    let len = s.unicode_len();
    let mut t: Vec<char> = Vec::new();
    let mut i: usize = 0;
    proof {
        assert(s@.skip(0) =~= s@);
        assert(t@ + crlf_to_lf(s@) =~= crlf_to_lf(s@));
    }
    while i < len
        invariant
            i <= len,
            len == s@.len(),
            crlf_to_lf(s@) == t@ + crlf_to_lf(s@.skip(i as int)),
        decreases len - i,
    {
        let ghost pre = t@;
        let c = s.get_char(i);
        if c == '\r' && i + 1 < len && s.get_char(i + 1) == '\n' {
            t.push('\n');
            proof {
                let rest = s@.skip(i as int);
                assert(rest.len() >= 2 && rest[0] == '\r' && rest[1] == '\n');
                assert(rest.skip(2) =~= s@.skip(i + 2));
                assert(crlf_to_lf(rest) == seq!['\n'] + crlf_to_lf(s@.skip(i + 2)));
                assert(pre + crlf_to_lf(rest) =~= t@ + crlf_to_lf(s@.skip(i + 2)));
            }
            i += 2;
        } else {
            t.push(c);
            proof {
                let rest = s@.skip(i as int);
                assert(rest.len() >= 1 && rest[0] == c);
                assert(!(rest.len() >= 2 && rest[0] == '\r' && rest[1] == '\n')) by {
                    if rest.len() >= 2 {
                        assert(rest[1] == s@[i + 1]);
                    }
                }
                assert(rest.skip(1) =~= s@.skip(i + 1));
                assert(crlf_to_lf(rest) == seq![c] + crlf_to_lf(s@.skip(i + 1)));
                assert(pre + crlf_to_lf(rest) =~= t@ + crlf_to_lf(s@.skip(i + 1)));
            }
            i += 1;
        }
    }
    proof {
        assert(s@.skip(len as int) =~= Seq::<char>::empty());
        assert(crlf_to_lf(s@) =~= t@);
    }

    let tlen = t.len();
    let mut lo: usize = 0;
    proof {
        assert(t@.skip(0) =~= t@);
    }
    while lo < tlen && is_space(t[lo])
        invariant
            lo <= tlen,
            tlen == t@.len(),
            crlf_to_lf(s@) == t@,
            drop_leading_space(t@) == drop_leading_space(t@.skip(lo as int)),
        decreases tlen - lo,
    {
        proof {
            let rest = t@.skip(lo as int);
            assert(rest.first() == t@[lo as int]);
            assert(rest.drop_first() =~= t@.skip(lo + 1));
        }
        lo += 1;
    }
    proof {
        let rest = t@.skip(lo as int);
        if lo < tlen {
            assert(rest.first() == t@[lo as int]);
            assert(!is_space_char(rest.first()));
        }
        assert(drop_leading_space(rest) == rest);
        assert(drop_leading_space(t@) == t@.skip(lo as int));
    }

    let mut hi: usize = tlen;
    while hi > lo && is_space(t[hi - 1])
        invariant
            lo <= hi <= tlen,
            tlen == t@.len(),
            crlf_to_lf(s@) == t@,
            drop_leading_space(t@) == t@.skip(lo as int),
            drop_trailing_space(t@.skip(lo as int)) == drop_trailing_space(
                t@.subrange(lo as int, hi as int),
            ),
        decreases hi,
    {
        proof {
            let cur = t@.subrange(lo as int, hi as int);
            assert(cur.last() == t@[hi - 1]);
            assert(cur.drop_last() =~= t@.subrange(lo as int, hi - 1));
            assert(t@.skip(lo as int) =~= t@.subrange(lo as int, tlen as int));
        }
        hi -= 1;
    }
    proof {
        let cur = t@.subrange(lo as int, hi as int);
        if hi > lo {
            assert(cur.last() == t@[hi - 1]);
            assert(!is_space_char(cur.last()));
        }
        assert(drop_trailing_space(cur) == cur);
        assert(t@.skip(lo as int) =~= t@.subrange(lo as int, tlen as int));
        assert(normalize_text_spec(s@) == t@.subrange(lo as int, hi as int));
    }

    let mut r: Vec<char> = Vec::new();
    let mut k: usize = lo;
    while k < hi
        invariant
            lo <= k <= hi <= tlen,
            tlen == t@.len(),
            r@ == t@.subrange(lo as int, k as int),
        decreases hi - k,
    {
        let ghost pre = r@;
        r.push(t[k]);
        proof {
            assert(r@ =~= t@.subrange(lo as int, k + 1));
        }
        k += 1;
    }
    proof {
        assert(r@ == normalize_text_spec(s@));
    }
    r
}

// ---------------------------------------------------------------------------
// Byte-order mark handling and the up-to-date check
// ---------------------------------------------------------------------------

/// The UTF-8 byte-order mark the consuming client requires on the asset file.
pub open spec fn bom_bytes() -> Seq<u8> {
    seq![0xEFu8, 0xBBu8, 0xBFu8]
}

/// Whether `b` starts with the UTF-8 byte-order mark.
pub open spec fn has_bom(b: Seq<u8>) -> bool {
    b.len() >= 3 && b[0] == 0xEF && b[1] == 0xBB && b[2] == 0xBF
}

/// `b` with a leading byte-order mark removed, if one is present.
pub open spec fn strip_bom_spec(b: Seq<u8>) -> Seq<u8> {
    if has_bom(b) {
        b.skip(3)
    } else {
        b
    }
}

/// Removes a leading UTF-8 byte-order mark from an asset's raw bytes.
pub fn strip_bom(b: &Vec<u8>) -> (r: Vec<u8>)
    ensures
        r@ == strip_bom_spec(b@),
{
    let start: usize = if b.len() >= 3 && b[0] == 0xEF && b[1] == 0xBB && b[2] == 0xBF {
        3
    } else {
        0
    };
    let mut r: Vec<u8> = Vec::new();
    let mut i: usize = start;
    while i < b.len()
        invariant
            start <= i <= b.len(),
            r@ == b@.subrange(start as int, i as int),
        decreases b.len() - i,
    {
        r.push(b[i]);
        proof {
            assert(r@ =~= b@.subrange(start as int, i + 1));
        }
        i += 1;
    }
    proof {
        assert(b@.subrange(start as int, b@.len() as int) =~= b@.skip(start as int));
        assert(b@.skip(0) =~= b@);
    }
    r
}

/// The installed overlay counts as current exactly when: the locale is known,
/// the local asset could be read, the remote text could be fetched, the local
/// bytes (after removing a byte-order mark) decode as UTF-8, and the two
/// texts agree after normalization. Every failure degrades to "stale".
pub open spec fn up_to_date_spec(
    local: Option<Seq<u8>>,
    remote: Option<Seq<char>>,
    lang: Seq<char>,
) -> bool {
    &&& is_lang_fr(lang)
    &&& local is Some
    &&& remote is Some
    &&& valid_utf8(strip_bom_spec(local.unwrap()))
    &&& normalize_text_spec(decode_utf8(strip_bom_spec(local.unwrap()))) == normalize_text_spec(
        remote.unwrap(),
    )
}

/// The mathematical value of an optional byte vector.
pub open spec fn opt_bytes(v: Option<Vec<u8>>) -> Option<Seq<u8>> {
    match v {
        Some(b) => Some(b@),
        None => None,
    }
}

/// The mathematical value of an optional string.
pub open spec fn opt_text(v: Option<String>) -> Option<Seq<char>> {
    match v {
        Some(s) => Some(s@),
        None => None,
    }
}

/// Decides whether the installed overlay is current against the remote
/// source. `local` is the asset file's raw bytes (`None`: missing or
/// unreadable), `remote` the fetched remote text (`None`: fetch failed).
pub fn is_translation_up_to_date(
    local: Option<Vec<u8>>,
    remote: Option<String>,
    lang: &str,
) -> (r: bool)
    ensures
        r == up_to_date_spec(opt_bytes(local), opt_text(remote), lang@),
{
    if get_language_folder(lang).is_none() {
        return false;
    }
    let local_bytes = match local {
        Some(b) => b,
        None => {
            return false;
        },
    };
    let remote_text = match remote {
        Some(t) => t,
        None => {
            return false;
        },
    };
    let stripped = strip_bom(&local_bytes);
    let decoded = match decode_utf8_bytes(stripped) {
        Some(s) => s,
        None => {
            return false;
        },
    };
    let local_norm = normalize_text(decoded.as_str());
    let remote_norm = normalize_text(remote_text.as_str());
    chars_eq(&local_norm, &remote_norm)
}

// ---------------------------------------------------------------------------
// Installation state
// ---------------------------------------------------------------------------

/// What the caller observed on disk for one installation and one locale
/// folder: the user-config file's content (when present and readable) and the
/// existence of the overlay directory chain and asset file.
pub struct InstallationProbe {
    pub user_cfg: Option<String>,
    pub data_dir: bool,
    pub localization_dir: bool,
    pub lang_dir: bool,
    pub asset_file: bool,
}

/// The user-config line that selects the French overlay folder.
pub open spec fn cfg_language_line() -> Seq<char> {
    "g_language = french_(france)"@
}

/// The full user-config contents written on a fresh install: the language
/// selection plus the fixed default audio-locale line.
pub open spec fn user_cfg_text() -> Seq<char> {
    "g_language = french_(france)\ng_languageAudio = english\n"@
}

/// The overlay counts as installed exactly when the locale is known, the
/// user-config file exists and selects the locale's folder, the overlay
/// directory chain exists, and the asset file exists.
pub open spec fn is_translated_spec(
    user_cfg: Option<Seq<char>>,
    data_dir: bool,
    localization_dir: bool,
    lang_dir: bool,
    asset_file: bool,
    lang: Seq<char>,
) -> bool {
    &&& is_lang_fr(lang)
    &&& user_cfg is Some
    &&& contains_seq(user_cfg.unwrap(), cfg_language_line())
    &&& data_dir
    &&& localization_dir
    &&& lang_dir
    &&& asset_file
}

/// Decides whether an installation carries the overlay for `lang`, from what
/// the caller observed on disk. Any missing condition yields `false`.
pub fn is_game_translated_sync(probe: &InstallationProbe, lang: &str) -> (r: bool)
    ensures
        r == is_translated_spec(
            opt_text(probe.user_cfg),
            probe.data_dir,
            probe.localization_dir,
            probe.lang_dir,
            probe.asset_file,
            lang@,
        ),
{
    if get_language_folder(lang).is_none() {
        return false;
    }
    let cfg = match &probe.user_cfg {
        Some(c) => c,
        None => {
            return false;
        },
    };
    if !str_contains(cfg.as_str(), "g_language = french_(france)") {
        return false;
    }
    probe.data_dir && probe.localization_dir && probe.lang_dir && probe.asset_file
}

// ---------------------------------------------------------------------------
// Paths and plans for install, update, uninstall
// ---------------------------------------------------------------------------

/// The overlay data directory under an installation.
pub open spec fn data_dir_spec(base: Seq<char>) -> Seq<char> {
    base + "\\data"@
}

/// The localization directory under the data directory.
pub open spec fn localization_dir_spec(base: Seq<char>) -> Seq<char> {
    data_dir_spec(base) + "\\Localization"@
}

/// The French overlay folder under the localization directory.
pub open spec fn lang_dir_spec(base: Seq<char>) -> Seq<char> {
    localization_dir_spec(base) + "\\"@ + "french_(france)"@
}

/// The overlay asset file inside the locale folder.
pub open spec fn asset_file_spec(base: Seq<char>) -> Seq<char> {
    lang_dir_spec(base) + "\\global.ini"@
}

/// The user-config file beside the installation.
pub open spec fn user_cfg_path_spec(base: Seq<char>) -> Seq<char> {
    base + "\\user.cfg"@
}

/// The file-system locations the checker works with, for one installation.
pub struct TranslationPaths {
    pub data_dir: String,
    pub localization_dir: String,
    pub lang_dir: String,
    pub asset_file: String,
    pub user_cfg: String,
}

/// Builds the overlay locations for an installation path, for a known locale.
pub fn translation_paths(path: &str, lang: &str) -> (r: Option<TranslationPaths>)
    ensures
        r is Some <==> is_lang_fr(lang@),
        r is Some ==> {
            let p = r.unwrap();
            &&& p.data_dir@ == data_dir_spec(path@)
            &&& p.localization_dir@ == localization_dir_spec(path@)
            &&& p.lang_dir@ == lang_dir_spec(path@)
            &&& p.asset_file@ == asset_file_spec(path@)
            &&& p.user_cfg@ == user_cfg_path_spec(path@)
        },
{
    let folder = match get_language_folder(lang) {
        Some(f) => f,
        None => {
            return None;
        },
    };
    let data_dir = path.to_owned().concat("\\data");
    let localization_dir = data_dir.clone().concat("\\Localization");
    let lang_dir = localization_dir.clone().concat("\\").concat(folder);
    let asset_file = lang_dir.clone().concat("\\global.ini");
    let user_cfg = path.to_owned().concat("\\user.cfg");
    Some(TranslationPaths { data_dir, localization_dir, lang_dir, asset_file, user_cfg })
}

/// The bytes written to the overlay asset file: the UTF-8 byte-order mark the
/// consuming client requires, then the remote text's UTF-8 encoding.
pub open spec fn asset_file_bytes(remote: Seq<char>) -> Seq<u8> {
    bom_bytes() + vstd::utf8::encode_utf8(remote)
}

/// Everything an install or update has to write, precomputed: the locations,
/// the asset file's bytes, and — on a fresh install only — the user-config
/// contents. A pure update never touches the user-config file.
pub struct InstallPlan {
    pub paths: TranslationPaths,
    pub asset_contents: Vec<u8>,
    pub user_cfg_contents: Option<String>,
}

/// Plans an install or update of the overlay with the fetched remote text.
/// Fails exactly on an unsupported locale.
pub fn plan_install_or_update(path: &str, lang: &str, remote: &str, fresh: bool) -> (r: Result<
    InstallPlan,
    String,
>)
    ensures
        r is Ok <==> is_lang_fr(lang@),
        r is Ok ==> {
            let p = r.unwrap();
            &&& p.paths.data_dir@ == data_dir_spec(path@)
            &&& p.paths.localization_dir@ == localization_dir_spec(path@)
            &&& p.paths.lang_dir@ == lang_dir_spec(path@)
            &&& p.paths.asset_file@ == asset_file_spec(path@)
            &&& p.paths.user_cfg@ == user_cfg_path_spec(path@)
            &&& p.asset_contents@ == asset_file_bytes(remote@)
            &&& (fresh <==> p.user_cfg_contents is Some)
            &&& (fresh ==> p.user_cfg_contents.unwrap()@ == user_cfg_text())
        },
        r is Err ==> r->Err_0@ == "unsupported language"@,
{
    let paths = match translation_paths(path, lang) {
        Some(p) => p,
        None => {
            return Err("unsupported language".to_owned());
        },
    };
    let mut asset_contents: Vec<u8> = Vec::new();
    asset_contents.push(0xEF);
    asset_contents.push(0xBB);
    asset_contents.push(0xBF);
    let mut encoded = remote.as_bytes_vec();
    proof {
        assert(asset_contents@ =~= bom_bytes());
    }
    asset_contents.append(&mut encoded);
    proof {
        assert(asset_contents@ == asset_file_bytes(remote@));
    }
    let user_cfg_contents = if fresh {
        Some("g_language = french_(france)\ng_languageAudio = english\n".to_owned())
    } else {
        None
    };
    Ok(InstallPlan { paths, asset_contents, user_cfg_contents })
}

/// The two locations an uninstall removes: the overlay data subtree and the
/// user-config file. Removing them is idempotent; absence is not an error.
pub fn uninstall_targets(path: &str) -> (r: (String, String))
    ensures
        r.0@ == data_dir_spec(path@),
        r.1@ == user_cfg_path_spec(path@),
{
    (path.to_owned().concat("\\data"), path.to_owned().concat("\\user.cfg"))
}

// ---------------------------------------------------------------------------
// Laws
// ---------------------------------------------------------------------------

/// `s` contains no carriage return.
pub open spec fn no_cr(s: Seq<char>) -> bool {
    forall|i: int| 0 <= i < s.len() ==> #[trigger] s[i] != '\r'
}

/// `s` with each line feed expanded into a carriage-return/line-feed pair.
pub open spec fn expand_lf(s: Seq<char>) -> Seq<char>
    decreases s.len(),
{
    if s.len() == 0 {
        Seq::empty()
    } else if s.first() == '\n' {
        seq!['\r', '\n'] + expand_lf(s.drop_first())
    } else {
        seq![s.first()] + expand_lf(s.drop_first())
    }
}

/// Folding line endings leaves a text without carriage returns unchanged.
pub proof fn lemma_crlf_of_cr_free(s: Seq<char>)
    requires
        no_cr(s),
    ensures
        crlf_to_lf(s) == s,
    decreases s.len(),
{
    if s.len() == 0 {
        assert(crlf_to_lf(s) =~= s);
    } else {
        assert(s[0] != '\r');
        assert(no_cr(s.skip(1))) by {
            assert(forall|i: int| 0 <= i < s.skip(1).len() ==> #[trigger] s.skip(1)[i] == s[i + 1]);
        }
        lemma_crlf_of_cr_free(s.skip(1));
        assert(seq![s[0]] + s.skip(1) =~= s);
    }
}

/// Folding line endings undoes their expansion, on texts without stray
/// carriage returns.
pub proof fn lemma_crlf_of_expanded(s: Seq<char>)
    requires
        no_cr(s),
    ensures
        crlf_to_lf(expand_lf(s)) == s,
    decreases s.len(),
{
    if s.len() == 0 {
    } else {
        let rest = s.drop_first();
        assert(no_cr(rest)) by {
            assert(forall|i: int| 0 <= i < rest.len() ==> #[trigger] rest[i] == s[i + 1]);
        }
        lemma_crlf_of_expanded(rest);
        let e = expand_lf(s);
        if s.first() == '\n' {
            assert(e == seq!['\r', '\n'] + expand_lf(rest));
            assert(e.len() >= 2 && e[0] == '\r' && e[1] == '\n');
            assert(e.skip(2) =~= expand_lf(rest));
            assert(crlf_to_lf(e) == seq!['\n'] + crlf_to_lf(expand_lf(rest)));
            assert(seq!['\n'] + rest =~= s);
        } else {
            assert(e == seq![s.first()] + expand_lf(rest));
            assert(e[0] == s.first() && s.first() != '\r');
            assert(e.skip(1) =~= expand_lf(rest));
            assert(crlf_to_lf(e) == seq![s.first()] + crlf_to_lf(expand_lf(rest)));
            assert(seq![s.first()] + rest =~= s);
        }
    }
}

/// Folding line endings distributes over concatenation when no pair can
/// straddle the boundary.
pub proof fn lemma_crlf_concat(a: Seq<char>, b: Seq<char>)
    requires
        a.len() > 0 && b.len() > 0 ==> !(a.last() == '\r' && b.first() == '\n'),
    ensures
        crlf_to_lf(a + b) == crlf_to_lf(a) + crlf_to_lf(b),
    decreases a.len(),
{
    if a.len() == 0 {
        assert(a + b =~= b);
        assert(crlf_to_lf(a) + crlf_to_lf(b) =~= crlf_to_lf(b));
    } else if a.len() == 1 {
        let c = a[0];
        let ab = a + b;
        assert(ab.len() >= 1 && ab[0] == c);
        assert(ab.skip(1) =~= b);
        if ab.len() >= 2 {
            assert(ab[1] == b[0]);
            assert(!(ab[0] == '\r' && ab[1] == '\n'));
        }
        assert(crlf_to_lf(ab) == seq![c] + crlf_to_lf(b));
        assert(crlf_to_lf(a) == seq![c] + crlf_to_lf(a.skip(1)));
        assert(a.skip(1) =~= Seq::<char>::empty());
        assert(crlf_to_lf(a) =~= seq![c]);
        assert(seq![c] + crlf_to_lf(b) =~= crlf_to_lf(a) + crlf_to_lf(b));
    } else {
        let ab = a + b;
        assert(ab[0] == a[0] && ab[1] == a[1]);
        if a[0] == '\r' && a[1] == '\n' {
            assert(ab.skip(2) =~= a.skip(2) + b);
            assert(a.skip(2).len() > 0 ==> a.skip(2).last() == a.last());
            lemma_crlf_concat(a.skip(2), b);
            assert(crlf_to_lf(ab) == seq!['\n'] + (crlf_to_lf(a.skip(2)) + crlf_to_lf(b)));
            assert(crlf_to_lf(a) == seq!['\n'] + crlf_to_lf(a.skip(2)));
            assert(seq!['\n'] + (crlf_to_lf(a.skip(2)) + crlf_to_lf(b)) =~= (seq!['\n']
                + crlf_to_lf(a.skip(2))) + crlf_to_lf(b));
        } else {
            assert(ab.skip(1) =~= a.skip(1) + b);
            assert(a.skip(1).last() == a.last());
            lemma_crlf_concat(a.skip(1), b);
            assert(crlf_to_lf(ab) == seq![a[0]] + (crlf_to_lf(a.skip(1)) + crlf_to_lf(b)));
            assert(crlf_to_lf(a) == seq![a[0]] + crlf_to_lf(a.skip(1)));
            assert(seq![a[0]] + (crlf_to_lf(a.skip(1)) + crlf_to_lf(b)) =~= (seq![a[0]]
                + crlf_to_lf(a.skip(1))) + crlf_to_lf(b));
        }
    }
}

/// Folding line endings keeps an all-whitespace text all-whitespace.
pub proof fn lemma_crlf_all_space(s: Seq<char>)
    requires
        all_space(s),
    ensures
        all_space(crlf_to_lf(s)),
    decreases s.len(),
{
    if s.len() == 0 {
    } else if s.len() >= 2 && s[0] == '\r' && s[1] == '\n' {
        assert(all_space(s.skip(2))) by {
            assert(forall|i: int|
                0 <= i < s.skip(2).len() ==> #[trigger] s.skip(2)[i] == s[i + 2]);
        }
        lemma_crlf_all_space(s.skip(2));
        let r = crlf_to_lf(s);
        assert(r == seq!['\n'] + crlf_to_lf(s.skip(2)));
        assert(forall|i: int| 0 <= i < r.len() ==> is_space_char(#[trigger] r[i])) by {
            assert(is_space_char('\n'));
            assert(forall|i: int| 1 <= i < r.len() ==> r[i] == crlf_to_lf(s.skip(2))[i - 1]);
        }
    } else {
        assert(all_space(s.skip(1))) by {
            assert(forall|i: int|
                0 <= i < s.skip(1).len() ==> #[trigger] s.skip(1)[i] == s[i + 1]);
        }
        lemma_crlf_all_space(s.skip(1));
        let r = crlf_to_lf(s);
        assert(r == seq![s[0]] + crlf_to_lf(s.skip(1)));
        assert(forall|i: int| 0 <= i < r.len() ==> is_space_char(#[trigger] r[i])) by {
            assert(is_space_char(s[0]));
            assert(forall|i: int| 1 <= i < r.len() ==> r[i] == crlf_to_lf(s.skip(1))[i - 1]);
        }
    }
}

/// Dropping the whitespace prefix ignores an all-whitespace prefix.
pub proof fn lemma_drop_leading_prefix(p: Seq<char>, s: Seq<char>)
    requires
        all_space(p),
    ensures
        drop_leading_space(p + s) == drop_leading_space(s),
    decreases p.len(),
{
    if p.len() == 0 {
        assert(p + s =~= s);
    } else {
        let ps = p + s;
        assert(ps.first() == p[0] && is_space_char(p[0]));
        assert(ps.drop_first() =~= p.drop_first() + s);
        assert(all_space(p.drop_first())) by {
            assert(forall|i: int|
                0 <= i < p.drop_first().len() ==> #[trigger] p.drop_first()[i] == p[i + 1]);
        }
        lemma_drop_leading_prefix(p.drop_first(), s);
    }
}

/// Dropping the whitespace suffix ignores an all-whitespace suffix.
pub proof fn lemma_drop_trailing_suffix(s: Seq<char>, q: Seq<char>)
    requires
        all_space(q),
    ensures
        drop_trailing_space(s + q) == drop_trailing_space(s),
    decreases q.len(),
{
    if q.len() == 0 {
        assert(s + q =~= s);
    } else {
        let sq = s + q;
        assert(sq.last() == q.last() && is_space_char(q.last()));
        assert(sq.drop_last() =~= s + q.drop_last());
        assert(all_space(q.drop_last())) by {
            assert(forall|i: int|
                0 <= i < q.drop_last().len() ==> #[trigger] q.drop_last()[i] == q[i]);
        }
        lemma_drop_trailing_suffix(s, q.drop_last());
    }
}

/// Dropping the whitespace prefix distributes over concatenation when the
/// left side keeps at least one character.
pub proof fn lemma_drop_leading_concat(s: Seq<char>, q: Seq<char>)
    requires
        !all_space(s),
    ensures
        drop_leading_space(s + q) == drop_leading_space(s) + q,
    decreases s.len(),
{
    assert(s.len() > 0) by {
        if s.len() == 0 {
            assert(all_space(s));
        }
    }
    let sq = s + q;
    assert(sq.first() == s.first());
    if is_space_char(s.first()) {
        assert(sq.drop_first() =~= s.drop_first() + q);
        assert(!all_space(s.drop_first())) by {
            let w = choose|i: int| 0 <= i < s.len() && !is_space_char(#[trigger] s[i]);
            assert(w != 0);
            assert(s.drop_first()[w - 1] == s[w]);
        }
        lemma_drop_leading_concat(s.drop_first(), q);
    } else {
    }
}

/// An all-whitespace text trims to nothing.
pub proof fn lemma_drop_leading_all_space(s: Seq<char>)
    requires
        all_space(s),
    ensures
        drop_leading_space(s) == Seq::<char>::empty(),
    decreases s.len(),
{
    if s.len() == 0 {
        assert(s =~= Seq::<char>::empty());
    } else {
        assert(all_space(s.drop_first())) by {
            assert(forall|i: int|
                0 <= i < s.drop_first().len() ==> #[trigger] s.drop_first()[i] == s[i + 1]);
        }
        lemma_drop_leading_all_space(s.drop_first());
    }
}

/// Surrounding whitespace never changes a text's normal form: trimming
/// removes any all-whitespace padding.
pub proof fn lemma_trim_padding(pre: Seq<char>, s: Seq<char>, post: Seq<char>)
    requires
        all_space(pre),
        all_space(post),
    ensures
        trim_space(pre + s + post) == trim_space(s),
{
    if all_space(s) {
        assert(all_space(pre + s + post)) by {
            assert(forall|i: int|
                0 <= i < (pre + s + post).len() ==> is_space_char(#[trigger] (pre + s
                    + post)[i])) by {
                assert(forall|i: int|
                    0 <= i < (pre + s + post).len() ==> (pre + s + post)[i] == if i < pre.len() {
                        pre[i]
                    } else if i < pre.len() + s.len() {
                        s[i - pre.len()]
                    } else {
                        post[i - pre.len() - s.len()]
                    });
            }
        }
        lemma_drop_leading_all_space(pre + s + post);
        lemma_drop_leading_all_space(s);
    } else {
        assert(pre + s + post =~= pre + (s + post));
        lemma_drop_leading_prefix(pre, s + post);
        lemma_drop_leading_concat(s, post);
        lemma_drop_trailing_suffix(drop_leading_space(s), post);
    }
}

/// The expansion of a text without carriage returns never ends in a
/// carriage return, and never starts with a bare line feed.
pub proof fn lemma_expand_lf_ends(s: Seq<char>)
    requires
        no_cr(s),
        s.len() > 0,
    ensures
        expand_lf(s).len() > 0,
        expand_lf(s).last() != '\r',
        expand_lf(s).first() != '\n',
    decreases s.len(),
{
    let rest = s.drop_first();
    if rest.len() == 0 {
        if s.first() == '\n' {
            assert(expand_lf(rest) =~= Seq::<char>::empty());
            assert(expand_lf(s) =~= seq!['\r', '\n']);
        } else {
            assert(expand_lf(rest) =~= Seq::<char>::empty());
            assert(expand_lf(s) =~= seq![s.first()]);
        }
    } else {
        assert(no_cr(rest)) by {
            assert(forall|i: int| 0 <= i < rest.len() ==> #[trigger] rest[i] == s[i + 1]);
        }
        lemma_expand_lf_ends(rest);
        assert(expand_lf(s).last() == expand_lf(rest).last());
    }
}

/// The overlay check ignores a byte-order mark on the local asset: bytes
/// with and without the mark decide alike.
pub proof fn lemma_up_to_date_ignores_bom(b: Seq<u8>, remote: Seq<char>, lang: Seq<char>)
    requires
        !has_bom(b),
    ensures
        up_to_date_spec(Some(bom_bytes() + b), Some(remote), lang) == up_to_date_spec(
            Some(b),
            Some(remote),
            lang,
        ),
{
    assert(has_bom(bom_bytes() + b));
    assert(strip_bom_spec(bom_bytes() + b) =~= b);
    assert(strip_bom_spec(b) == b);
}

/// A freshly written asset is current against the very text it was written
/// from: the check is reflexive.
pub proof fn lemma_fresh_asset_is_current(remote: Seq<char>, lang: Seq<char>)
    requires
        is_lang_fr(lang),
    ensures
        up_to_date_spec(Some(asset_file_bytes(remote)), Some(remote), lang),
{
    broadcast use vstd::utf8::encode_utf8_valid_utf8, vstd::utf8::encode_utf8_decode_utf8;

    let enc = vstd::utf8::encode_utf8(remote);
    assert(has_bom(bom_bytes() + enc));
    assert(strip_bom_spec(bom_bytes() + enc) =~= enc);
}

/// The full normalization law: a local asset written with a byte-order mark
/// from a padded, CRLF-expanded copy of the remote text is still current.
/// `t` is the remote text, free of stray carriage returns; `pre` and `post`
/// are arbitrary whitespace padding.
pub proof fn lemma_up_to_date_modulo_normalization(
    t: Seq<char>,
    pre: Seq<char>,
    post: Seq<char>,
    lang: Seq<char>,
)
    requires
        is_lang_fr(lang),
        no_cr(t),
        all_space(pre),
        all_space(post),
    ensures
        up_to_date_spec(
            Some(bom_bytes() + vstd::utf8::encode_utf8(pre + expand_lf(t) + post)),
            Some(t),
            lang,
        ),
{
    broadcast use vstd::utf8::encode_utf8_valid_utf8, vstd::utf8::encode_utf8_decode_utf8;

    let body = pre + expand_lf(t) + post;
    let enc = vstd::utf8::encode_utf8(body);
    assert(has_bom(bom_bytes() + enc));
    assert(strip_bom_spec(bom_bytes() + enc) =~= enc);
    assert(vstd::utf8::decode_utf8(enc) == body);

    if t.len() == 0 {
        // the whole document is whitespace, and so is the empty remote text
        assert(expand_lf(t) =~= Seq::<char>::empty());
        assert(body =~= pre + post);
        lemma_crlf_concat_all_space(pre, post);
        lemma_drop_leading_all_space(crlf_to_lf(body));
        assert(drop_trailing_space(Seq::<char>::empty()) =~= Seq::<char>::empty());
        assert(normalize_text_spec(body) =~= Seq::<char>::empty());
        assert(crlf_to_lf(t) =~= Seq::<char>::empty());
        assert(normalize_text_spec(t) =~= Seq::<char>::empty());
    } else {
        // crlf_to_lf(body) == crlf_to_lf(pre) + t + crlf_to_lf(post):
        // an expanded text never starts with a bare line feed and never ends
        // in a carriage return, so no pair straddles a boundary
        lemma_expand_lf_ends(t);
        assert(body =~= pre + (expand_lf(t) + post));
        assert((expand_lf(t) + post).first() == expand_lf(t).first());
        lemma_crlf_concat(pre, expand_lf(t) + post);
        lemma_crlf_concat(expand_lf(t), post);
        lemma_crlf_of_expanded(t);
        assert(crlf_to_lf(body) == crlf_to_lf(pre) + (t + crlf_to_lf(post)));

        lemma_crlf_all_space(pre);
        lemma_crlf_all_space(post);
        assert(crlf_to_lf(body) =~= crlf_to_lf(pre) + t + crlf_to_lf(post));
        lemma_trim_padding(crlf_to_lf(pre), t, crlf_to_lf(post));
        lemma_crlf_of_cr_free(t);
        assert(normalize_text_spec(body) == trim_space(t));
        assert(normalize_text_spec(t) == trim_space(t));
    }
}

/// Folding line endings distributes over a concatenation of whitespace with
/// anything when both sides stay whitespace-only, as far as the all-space
/// case here needs.
proof fn lemma_crlf_concat_all_space(a: Seq<char>, b: Seq<char>)
    requires
        all_space(a),
        all_space(b),
    ensures
        all_space(crlf_to_lf(a + b)),
{
    assert(all_space(a + b)) by {
        assert(forall|i: int|
            0 <= i < (a + b).len() ==> (a + b)[i] == if i < a.len() {
                a[i]
            } else {
                b[i - a.len()]
            });
    }
    lemma_crlf_all_space(a + b);
}

/// A fresh install makes the overlay read as installed: the planned
/// user-config contents select the locale, and the directories and asset the
/// plan writes satisfy every installed-state condition.
pub proof fn lemma_fresh_install_then_installed()
    ensures
        is_translated_spec(Some(user_cfg_text()), true, true, true, true, "fr"@),
{
    reveal_strlit("fr");
    reveal_strlit("g_language = french_(france)");
    reveal_strlit("g_language = french_(france)\ng_languageAudio = english\n");
    assert(is_lang_fr("fr"@));
    assert(occurs_at(user_cfg_text(), cfg_language_line(), 0)) by {
        assert(user_cfg_text().subrange(0, 28) =~= cfg_language_line());
    }
}

/// After an uninstall nothing of the overlay remains, so the installed-state
/// check reports `false`, whatever the locale.
pub proof fn lemma_uninstall_then_not_installed(lang: Seq<char>)
    ensures
        !is_translated_spec(None, false, false, false, false, lang),
{
}

} // verus!
