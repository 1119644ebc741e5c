//! Per-channel translation preferences, as the hosting application hands
//! them in: an optional remote asset link for each update channel, and the
//! shape of the remote link payload.

use vstd::prelude::*;

use crate::text::str_eq;

verus! {

/// The remote overlay link selected for each update channel, if any.
pub struct TranslationsSelected {
    pub live: Option<String>,
    pub ptu: Option<String>,
    pub eptu: Option<String>,
    pub techpreview: Option<String>,
    pub preview40: Option<String>,
}

/// The link configured for a channel identifier; unknown channels have none.
pub open spec fn link_for(prefs: TranslationsSelected, channel: Seq<char>) -> Option<String> {
    if channel == "LIVE"@ {
        prefs.live
    } else if channel == "PTU"@ {
        prefs.ptu
    } else if channel == "EPTU"@ {
        prefs.eptu
    } else if channel == "TECH-PREVIEW"@ {
        prefs.techpreview
    } else if channel == "4.0_PREVIEW"@ {
        prefs.preview40
    } else {
        None
    }
}

impl TranslationsSelected {
    /// No channel selected.
    pub fn none_selected() -> (r: TranslationsSelected)
        ensures
            r.live is None,
            r.ptu is None,
            r.eptu is None,
            r.techpreview is None,
            r.preview40 is None,
    {
        TranslationsSelected {
            live: None,
            ptu: None,
            eptu: None,
            techpreview: None,
            preview40: None,
        }
    }

    /// The remote asset link configured for `channel`, if any.
    pub fn get_link(&self, channel: &str) -> (r: Option<String>)
        ensures
            r == link_for(*self, channel@),
    {
        if str_eq(channel, "LIVE") {
            match &self.live {
                Some(l) => Some(l.clone()),
                None => None,
            }
        } else if str_eq(channel, "PTU") {
            match &self.ptu {
                Some(l) => Some(l.clone()),
                None => None,
            }
        } else if str_eq(channel, "EPTU") {
            match &self.eptu {
                Some(l) => Some(l.clone()),
                None => None,
            }
        } else if str_eq(channel, "TECH-PREVIEW") {
            match &self.techpreview {
                Some(l) => Some(l.clone()),
                None => None,
            }
        } else if str_eq(channel, "4.0_PREVIEW") {
            match &self.preview40 {
                Some(l) => Some(l.clone()),
                None => None,
            }
        } else {
            None
        }
    }
}

/// A remote overlay link, as the link service reports it.
pub struct TranslationLink {
    pub link: String,
}

/// Drops the double-quote prefix of `s`.
pub open spec fn drop_leading_quotes(s: Seq<char>) -> Seq<char>
    decreases s.len(),
{
    if s.len() > 0 && s.first() == '"' {
        drop_leading_quotes(s.drop_first())
    } else {
        s
    }
}

/// Drops the double-quote suffix of `s`.
pub open spec fn drop_trailing_quotes(s: Seq<char>) -> Seq<char>
    decreases s.len(),
{
    if s.len() > 0 && s.last() == '"' {
        drop_trailing_quotes(s.drop_last())
    } else {
        s
    }
}

/// A link payload with all surrounding double quotes removed.
pub open spec fn trim_quotes(s: Seq<char>) -> Seq<char> {
    drop_trailing_quotes(drop_leading_quotes(s))
}

/// Extracts the bare link from a remote payload that is a JSON-style quoted
/// string: a payload that starts and ends with a double quote yields its
/// inside, with all surrounding quotes removed; any other payload is not a
/// quoted link.
pub fn extract_quoted_link(text: &str) -> (r: Option<String>)
    ensures
        r is Some <==> (text@.len() >= 1 && text@.first() == '"' && text@.last() == '"'),
        r is Some ==> r.unwrap()@ == trim_quotes(text@),
{
    let len = text.unicode_len();
    if len == 0 || text.get_char(0) != '"' || text.get_char(len - 1) != '"' {
        return None;
    }
    let mut lo: usize = 0;
    proof {
        assert(text@.skip(0) =~= text@);
    }
    while lo < len && text.get_char(lo) == '"'
        invariant
            lo <= len,
            len == text@.len(),
            drop_leading_quotes(text@) == drop_leading_quotes(text@.skip(lo as int)),
        decreases len - lo,
    {
        proof {
            let rest = text@.skip(lo as int);
            assert(rest.first() == text@[lo as int]);
            assert(rest.drop_first() =~= text@.skip(lo + 1));
        }
        lo += 1;
    }
    proof {
        let rest = text@.skip(lo as int);
        if lo < len {
            assert(rest.first() == text@[lo as int]);
        }
        assert(drop_leading_quotes(rest) == rest);
        assert(drop_leading_quotes(text@) == text@.skip(lo as int));
    }
    let mut hi: usize = len;
    while hi > lo && text.get_char(hi - 1) == '"'
        invariant
            lo <= hi <= len,
            len == text@.len(),
            drop_leading_quotes(text@) == text@.skip(lo as int),
            drop_trailing_quotes(text@.skip(lo as int)) == drop_trailing_quotes(
                text@.subrange(lo as int, hi as int),
            ),
        decreases hi,
    {
        proof {
            let cur = text@.subrange(lo as int, hi as int);
            assert(cur.last() == text@[hi - 1]);
            assert(cur.drop_last() =~= text@.subrange(lo as int, hi - 1));
            assert(text@.skip(lo as int) =~= text@.subrange(lo as int, len as int));
        }
        hi -= 1;
    }
    proof {
        let cur = text@.subrange(lo as int, hi as int);
        if hi > lo {
            assert(cur.last() == text@[hi - 1]);
        }
        assert(drop_trailing_quotes(cur) == cur);
        assert(text@.skip(lo as int) =~= text@.subrange(lo as int, len as int));
        assert(trim_quotes(text@) == text@.subrange(lo as int, hi as int));
    }
    Some(text.substring_char(lo, hi).to_owned())
}

} // verus!
