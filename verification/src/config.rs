//! The background service's configuration: the record itself, its documented
//! default, and the JSON document it is persisted as.

use vstd::prelude::*;

verus! {

/// Configuration of the background synchronization service.
#[derive(Clone, Copy, Debug, PartialEq, Eq, Structural)]
pub struct BackgroundServiceConfig {
    pub enabled: bool,
    pub check_interval_minutes: u64,
    pub auto_update: bool,
    pub start_with_windows: bool,
}

/// The documented default: disabled, one-hour interval, automatic updates on,
/// no login-item registration.
pub open spec fn default_config() -> BackgroundServiceConfig {
    BackgroundServiceConfig {
        enabled: false,
        check_interval_minutes: 60,
        auto_update: true,
        start_with_windows: false,
    }
}

impl Default for BackgroundServiceConfig {
    fn default() -> (c: Self)
        ensures
            c == default_config(),
    {
        BackgroundServiceConfig {
            enabled: false,
            check_interval_minutes: 60,
            auto_update: true,
            start_with_windows: false,
        }
    }
}

// ---------------------------------------------------------------------------
// The persisted JSON document
// ---------------------------------------------------------------------------
//
// The configuration is stored as one JSON object in a fixed canonical layout:
//
//     {
//       "enabled": false,
//       "check_interval_minutes": 60,
//       "auto_update": true,
//       "start_with_windows": false
//     }
//
// `config_to_json` writes exactly this form and `parse_config` accepts
// exactly this form: absence of the file yields the default, anything
// malformed is an explicit error, never a silent default.

/// The decimal digit characters.
pub open spec fn is_digit(c: char) -> bool {
    0x30 <= c as u32 && c as u32 <= 0x39
}

/// The value of a digit character; other characters count as zero.
pub open spec fn digit_val(c: char) -> nat {
    if is_digit(c) {
        (c as u32 - 0x30) as nat
    } else {
        0
    }
}

/// The digit character for a value below ten.
pub open spec fn digit_char(d: nat) -> char {
    if d == 0 {
        '0'
    } else if d == 1 {
        '1'
    } else if d == 2 {
        '2'
    } else if d == 3 {
        '3'
    } else if d == 4 {
        '4'
    } else if d == 5 {
        '5'
    } else if d == 6 {
        '6'
    } else if d == 7 {
        '7'
    } else if d == 8 {
        '8'
    } else {
        '9'
    }
}

/// The canonical decimal form of a number: no sign, no leading zero.
pub open spec fn dec_str(n: nat) -> Seq<char>
    decreases n,
{
    if n < 10 {
        seq![digit_char(n)]
    } else {
        dec_str(n / 10).push(digit_char(n % 10))
    }
}

/// The JSON form of a boolean.
pub open spec fn bool_str(b: bool) -> Seq<char> {
    if b {
        "true"@
    } else {
        "false"@
    }
}

/// The canonical JSON document for a configuration.
pub open spec fn config_json(c: BackgroundServiceConfig) -> Seq<char> {
    "{\n  \"enabled\": "@ + bool_str(c.enabled) + ",\n  \"check_interval_minutes\": "@ + dec_str(
        c.check_interval_minutes as nat,
    ) + ",\n  \"auto_update\": "@ + bool_str(c.auto_update) + ",\n  \"start_with_windows\": "@
        + bool_str(c.start_with_windows) + "\n}"@
}

/// The digit character for `d`.
fn digit_to_char(d: u64) -> (c: char)
    requires
        d < 10,
    ensures
        c == digit_char(d as nat),
{
    if d == 0 {
        '0'
    } else if d == 1 {
        '1'
    } else if d == 2 {
        '2'
    } else if d == 3 {
        '3'
    } else if d == 4 {
        '4'
    } else if d == 5 {
        '5'
    } else if d == 6 {
        '6'
    } else if d == 7 {
        '7'
    } else if d == 8 {
        '8'
    } else {
        '9'
    }
}

/// Writes a number in canonical decimal form.
pub fn u64_to_string(n: u64) -> (r: String)
    ensures
        r@ == dec_str(n as nat),
    decreases n,
{
    if n < 10 {
        let mut s = String::new();
        crate::text::push_char(&mut s, digit_to_char(n));
        proof {
            assert(s@ =~= seq![digit_char(n as nat)]);
        }
        s
    } else {
        let mut s = u64_to_string(n / 10);
        crate::text::push_char(&mut s, digit_to_char(n % 10));
        s
    }
}

/// Writes the canonical JSON document for a configuration.
pub fn config_to_json(c: &BackgroundServiceConfig) -> (r: String)
    ensures
        r@ == config_json(*c),
{
    let mut s = "{\n  \"enabled\": ".to_owned();
    s.append(if c.enabled {
        "true"
    } else {
        "false"
    });
    s.append(",\n  \"check_interval_minutes\": ");
    let num = u64_to_string(c.check_interval_minutes);
    s.append(num.as_str());
    s.append(",\n  \"auto_update\": ");
    s.append(if c.auto_update {
        "true"
    } else {
        "false"
    });
    s.append(",\n  \"start_with_windows\": ");
    s.append(if c.start_with_windows {
        "true"
    } else {
        "false"
    });
    s.append("\n}");
    s
}

// ---------------------------------------------------------------------------
// Parsing
// ---------------------------------------------------------------------------

/// Parsing a boolean at position `p`.
pub open spec fn parse_bool_at(s: Seq<char>, p: int) -> Option<(bool, int)> {
    if crate::text::occurs_at(s, "true"@, p) {
        Some((true, p + "true"@.len()))
    } else if crate::text::occurs_at(s, "false"@, p) {
        Some((false, p + "false"@.len()))
    } else {
        None
    }
}

/// End of the digit run starting at `p`.
pub open spec fn digits_end(s: Seq<char>, p: int) -> int
    decreases s.len() - p when 0 <= p <= s.len()
{
    if p < s.len() && is_digit(s[p]) {
        digits_end(s, p + 1)
    } else {
        p
    }
}

/// The value of the digits in `[p, e)`.
pub open spec fn digits_val(s: Seq<char>, p: int, e: int) -> nat
    decreases e - p,
{
    if p >= e {
        0
    } else {
        digits_val(s, p, e - 1) * 10 + digit_val(s[e - 1])
    }
}

/// Parsing a number at position `p`: a nonempty digit run whose value fits.
pub open spec fn parse_u64_at(s: Seq<char>, p: int) -> Option<(u64, int)> {
    let e = digits_end(s, p);
    if e > p && digits_val(s, p, e) <= u64::MAX {
        Some(((digits_val(s, p, e) as u64), e))
    } else {
        None
    }
}

/// Parsing the whole document: the canonical layout, the four fields in
/// order, nothing after the closing brace.
pub open spec fn parse_config_spec(s: Seq<char>) -> Option<BackgroundServiceConfig> {
    let l1 = "{\n  \"enabled\": "@;
    let l2 = ",\n  \"check_interval_minutes\": "@;
    let l3 = ",\n  \"auto_update\": "@;
    let l4 = ",\n  \"start_with_windows\": "@;
    let l5 = "\n}"@;
    if !crate::text::occurs_at(s, l1, 0) {
        None
    } else {
        match parse_bool_at(s, l1.len() as int) {
            None => None,
            Some((enabled, p1)) => {
                if !crate::text::occurs_at(s, l2, p1) {
                    None
                } else {
                    match parse_u64_at(s, p1 + l2.len()) {
                        None => None,
                        Some((interval, p2)) => {
                            if !crate::text::occurs_at(s, l3, p2) {
                                None
                            } else {
                                match parse_bool_at(s, p2 + l3.len()) {
                                    None => None,
                                    Some((auto_update, p3)) => {
                                        if !crate::text::occurs_at(s, l4, p3) {
                                            None
                                        } else {
                                            match parse_bool_at(s, p3 + l4.len()) {
                                                None => None,
                                                Some((start_with, p4)) => {
                                                    if crate::text::occurs_at(s, l5, p4) && p4
                                                        + l5.len() == s.len() {
                                                        Some(
                                                            BackgroundServiceConfig {
                                                                enabled,
                                                                check_interval_minutes: interval,
                                                                auto_update,
                                                                start_with_windows: start_with,
                                                            },
                                                        )
                                                    } else {
                                                        None
                                                    }
                                                },
                                            }
                                        }
                                    },
                                }
                            }
                        },
                    }
                }
            },
        }
    }
}

/// Checks for `lit` at position `p` and steps over it.
fn expect_lit(s: &str, p: usize, lit: &str) -> (r: Option<usize>)
    requires
        p <= s@.len(),
    ensures
        match r {
            Some(q) => crate::text::occurs_at(s@, lit@, p as int) && q == p + lit@.len()
                && q <= s@.len(),
            None => !crate::text::occurs_at(s@, lit@, p as int),
        },
{
    let len = s.unicode_len();
    let n = lit.unicode_len();
    if len - p < n {
        return None;
    }
    let mut j: usize = 0;
    while j < n
        invariant
            j <= n,
            n == lit@.len(),
            p + n <= s@.len(),
            s@.len() <= usize::MAX,
            forall|k: int| 0 <= k < j ==> s@[p + k] == lit@[k],
        decreases n - j,
    {
        if s.get_char(p + j) != lit.get_char(j) {
            assert(!crate::text::occurs_at(s@, lit@, p as int)) by {
                assert(s@.subrange(p as int, p + n) != lit@) by {
                    assert(s@.subrange(p as int, p + n)[j as int] != lit@[j as int]);
                }
            }
            return None;
        }
        j += 1;
    }
    assert(s@.subrange(p as int, p + n) =~= lit@);
    Some(p + n)
}

/// Parses a boolean at position `p`.
fn parse_bool(s: &str, p: usize) -> (r: Option<(bool, usize)>)
    requires
        p <= s@.len(),
    ensures
        match r {
            Some((b, q)) => parse_bool_at(s@, p as int) == Some((b, q as int)) && q <= s@.len(),
            None => parse_bool_at(s@, p as int) is None,
        },
{
    match expect_lit(s, p, "true") {
        Some(q) => Some((true, q)),
        None => match expect_lit(s, p, "false") {
            Some(q) => Some((false, q)),
            None => None,
        },
    }
}

/// Computes `digits_end`.
fn digits_end_exec(s: &str, p: usize) -> (r: usize)
    requires
        p <= s@.len(),
    ensures
        r as int == digits_end(s@, p as int),
        p <= r <= s@.len(),
    decreases s@.len() - p,
{
    let len = s.unicode_len();
    if p < len {
        let c = s.get_char(p);
        let u = c as u32;
        if 0x30 <= u && u <= 0x39 {
            return digits_end_exec(s, p + 1);
        }
    }
    p
}

/// A longer digit run never has a smaller value.
proof fn lemma_digits_val_mono(s: Seq<char>, p: int, j: int, e: int)
    requires
        p <= j <= e,
    ensures
        digits_val(s, p, j) <= digits_val(s, p, e),
    decreases e - j,
{
    if j < e {
        lemma_digits_val_mono(s, p, j, e - 1);
        assert(digits_val(s, p, e) == digits_val(s, p, e - 1) * 10 + digit_val(s[e - 1]));
        assert(digits_val(s, p, e - 1) <= digits_val(s, p, e - 1) * 10) by {
            assert(digits_val(s, p, e - 1) * 10 == digits_val(s, p, e - 1) + digits_val(s, p, e - 1)
                * 9) by (nonlinear_arith);
        }
    }
}

/// Parses a number at position `p`.
fn parse_u64(s: &str, p: usize) -> (r: Option<(u64, usize)>)
    requires
        p <= s@.len(),
    ensures
        match r {
            Some((n, q)) => parse_u64_at(s@, p as int) == Some((n, q as int)) && q <= s@.len(),
            None => parse_u64_at(s@, p as int) is None,
        },
{
    let e = digits_end_exec(s, p);
    if e == p {
        return None;
    }
    let mut acc: u64 = 0;
    let mut j: usize = p;
    while j < e
        invariant
            p <= j <= e <= s@.len(),
            e as int == digits_end(s@, p as int),
            acc as nat == digits_val(s@, p as int, j as int),
        decreases e - j,
    {
        let c = s.get_char(j);
        let u = c as u32;
        let d: u64 = if 0x30 <= u && u <= 0x39 {
            (u - 0x30) as u64
        } else {
            0
        };
        proof {
            assert(d as nat == digit_val(s@[j as int]));
        }
        let next = match acc.checked_mul(10) {
            Some(m) => m.checked_add(d),
            None => None,
        };
        match next {
            Some(v) => {
                acc = v;
                proof {
                    assert(acc as nat == digits_val(s@, p as int, j + 1));
                }
            },
            None => {
                proof {
                    assert(digits_val(s@, p as int, j + 1) > u64::MAX);
                    lemma_digits_val_mono(s@, p as int, j + 1, e as int);
                }
                return None;
            },
        }
        j += 1;
    }
    Some((acc, e))
}

/// Parses the canonical configuration document. Returns the configuration
/// exactly when the text is such a document.
pub fn parse_config(s: &str) -> (r: Option<BackgroundServiceConfig>)
    ensures
        r == parse_config_spec(s@),
{
    let p0 = match expect_lit(s, 0, "{\n  \"enabled\": ") {
        Some(q) => q,
        None => {
            return None;
        },
    };
    let (enabled, p1) = match parse_bool(s, p0) {
        Some(x) => x,
        None => {
            return None;
        },
    };
    let p1b = match expect_lit(s, p1, ",\n  \"check_interval_minutes\": ") {
        Some(q) => q,
        None => {
            return None;
        },
    };
    let (interval, p2) = match parse_u64(s, p1b) {
        Some(x) => x,
        None => {
            return None;
        },
    };
    let p2b = match expect_lit(s, p2, ",\n  \"auto_update\": ") {
        Some(q) => q,
        None => {
            return None;
        },
    };
    let (auto_update, p3) = match parse_bool(s, p2b) {
        Some(x) => x,
        None => {
            return None;
        },
    };
    let p3b = match expect_lit(s, p3, ",\n  \"start_with_windows\": ") {
        Some(q) => q,
        None => {
            return None;
        },
    };
    let (start_with, p4) = match parse_bool(s, p3b) {
        Some(x) => x,
        None => {
            return None;
        },
    };
    let p5 = match expect_lit(s, p4, "\n}") {
        Some(q) => q,
        None => {
            return None;
        },
    };
    if p5 != s.unicode_len() {
        return None;
    }
    Some(
        BackgroundServiceConfig {
            enabled,
            check_interval_minutes: interval,
            auto_update,
            start_with_windows: start_with,
        },
    )
}

/// Loads the configuration from what the caller read from the store:
/// `None` — the file does not exist — yields the documented default; a
/// present but malformed document is an explicit error, never a silent
/// default.
pub fn load_background_service_config(content: Option<&str>) -> (r: Result<
    BackgroundServiceConfig,
    String,
>)
    ensures
        content is None ==> r == Ok::<BackgroundServiceConfig, String>(default_config()),
        content is Some ==> match parse_config_spec(content.unwrap()@) {
            Some(c) => r == Ok::<BackgroundServiceConfig, String>(c),
            None => r is Err,
        },
{
    match content {
        None => Ok(BackgroundServiceConfig::default()),
        Some(text) => match parse_config(text) {
            Some(c) => Ok(c),
            None => Err("malformed configuration file".to_owned()),
        },
    }
}

// ---------------------------------------------------------------------------
// Laws
// ---------------------------------------------------------------------------

/// Every character of a canonical decimal form is a digit.
proof fn lemma_dec_str_digits(n: nat)
    ensures
        dec_str(n).len() >= 1,
        forall|i: int| 0 <= i < dec_str(n).len() ==> is_digit(#[trigger] dec_str(n)[i]),
    decreases n,
{
    if n < 10 {
        assert(is_digit(digit_char(n)));
    } else {
        lemma_dec_str_digits(n / 10);
        assert(is_digit(digit_char(n % 10)));
        assert(forall|i: int|
            0 <= i < dec_str(n / 10).len() ==> dec_str(n)[i] == dec_str(n / 10)[i]);
        assert(dec_str(n).last() == digit_char(n % 10));
    }
}

/// The digit run ends exactly where the digits end.
proof fn lemma_digits_end_of_run(s: Seq<char>, p: int, e: int)
    requires
        0 <= p <= e <= s.len(),
        forall|k: int| p <= k < e ==> is_digit(#[trigger] s[k]),
        e < s.len() ==> !is_digit(s[e]),
    ensures
        digits_end(s, p) == e,
    decreases e - p,
{
    if p < e {
        lemma_digits_end_of_run(s, p + 1, e);
    }
}

/// The value of a written number's digits is the number.
proof fn lemma_digits_val_of_dec_str(s: Seq<char>, p: int, n: nat)
    requires
        0 <= p,
        p + dec_str(n).len() <= s.len(),
        s.subrange(p, p + dec_str(n).len()) == dec_str(n),
    ensures
        digits_val(s, p, p + dec_str(n).len()) == n,
    decreases n,
{
    let w = dec_str(n).len() as int;
    if n < 10 {
        assert(s[p] == dec_str(n)[0]) by {
            assert(s.subrange(p, p + 1)[0] == s[p]);
        }
        assert(digits_val(s, p, p + 1) == digits_val(s, p, p) * 10 + digit_val(s[p]));
        assert(digit_val(digit_char(n)) == n);
    } else {
        let wr = dec_str(n / 10).len() as int;
        assert(dec_str(n) == dec_str(n / 10).push(digit_char(n % 10)));
        assert(w == wr + 1);
        assert(s.subrange(p, p + wr) =~= dec_str(n / 10)) by {
            assert(forall|i: int|
                0 <= i < wr ==> s.subrange(p, p + w)[i] == #[trigger] s.subrange(p, p + wr)[i]);
            assert(forall|i: int|
                0 <= i < wr ==> dec_str(n)[i] == #[trigger] dec_str(n / 10)[i]);
        }
        lemma_digits_val_of_dec_str(s, p, n / 10);
        assert(s[p + wr] == digit_char(n % 10)) by {
            assert(s.subrange(p, p + w)[wr] == s[p + wr]);
            assert(dec_str(n)[wr] == digit_char(n % 10));
        }
        assert(digits_val(s, p, p + w) == digits_val(s, p, p + wr) * 10 + digit_val(s[p + wr]));
        assert(digit_val(digit_char(n % 10)) == n % 10);
        assert((n / 10) * 10 + n % 10 == n) by (nonlinear_arith);
    }
}

/// The configuration codec round-trips: parsing a written configuration
/// yields that configuration. Together with the parser's exactness this says
/// a saved configuration always loads back unchanged.
#[verifier::rlimit(100)]
pub proof fn lemma_config_round_trip(c: BackgroundServiceConfig)
    ensures
        parse_config_spec(config_json(c)) == Some(c),
{
    reveal_strlit("{\n  \"enabled\": ");
    reveal_strlit(",\n  \"check_interval_minutes\": ");
    reveal_strlit(",\n  \"auto_update\": ");
    reveal_strlit(",\n  \"start_with_windows\": ");
    reveal_strlit("\n}");
    reveal_strlit("true");
    reveal_strlit("false");
    let l1 = "{\n  \"enabled\": "@;
    let l2 = ",\n  \"check_interval_minutes\": "@;
    let l3 = ",\n  \"auto_update\": "@;
    let l4 = ",\n  \"start_with_windows\": "@;
    let l5 = "\n}"@;
    let b1 = bool_str(c.enabled);
    let d = dec_str(c.check_interval_minutes as nat);
    let b2 = bool_str(c.auto_update);
    let b3 = bool_str(c.start_with_windows);
    let s = config_json(c);
    lemma_dec_str_digits(c.check_interval_minutes as nat);
    let q1 = l1.len() as int;
    let q2 = q1 + b1.len();
    let q3 = q2 + l2.len();
    let q4 = q3 + d.len();
    let q5 = q4 + l3.len();
    let q6 = q5 + b2.len();
    let q7 = q6 + l4.len();
    let q8 = q7 + b3.len();
    let q9 = q8 + l5.len();
    assert(s.len() == q9);
    assert(s.subrange(0, q1) =~= l1);
    assert(s.subrange(q1, q2) =~= b1);
    assert(s.subrange(q2, q3) =~= l2);
    assert(s.subrange(q3, q4) =~= d);
    assert(s.subrange(q4, q5) =~= l3);
    assert(s.subrange(q5, q6) =~= b2);
    assert(s.subrange(q6, q7) =~= l4);
    assert(s.subrange(q7, q8) =~= b3);
    assert(s.subrange(q8, q9) =~= l5);

    assert(crate::text::occurs_at(s, l1, 0));

    // the boolean fields parse to the written values
    assert(parse_bool_at(s, q1) == Some((c.enabled, q2))) by {
        if c.enabled {
            assert(crate::text::occurs_at(s, "true"@, q1));
        } else {
            assert(s[q1] == 'f') by {
                assert(s.subrange(q1, q2)[0] == s[q1]);
            }
            assert(!crate::text::occurs_at(s, "true"@, q1)) by {
                if crate::text::occurs_at(s, "true"@, q1) {
                    assert(s.subrange(q1, q1 + 4)[0] == 't');
                }
            }
            assert(crate::text::occurs_at(s, "false"@, q1));
        }
    }
    assert(crate::text::occurs_at(s, l2, q2));

    // the interval parses back to its value
    assert(forall|k: int| q3 <= k < q4 ==> is_digit(#[trigger] s[k])) by {
        assert(forall|k: int| q3 <= k < q4 ==> s[k] == s.subrange(q3, q4)[k - q3]);
    }
    assert(s[q4] == ',') by {
        assert(s.subrange(q4, q5)[0] == s[q4]);
    }
    lemma_digits_end_of_run(s, q3, q4);
    lemma_digits_val_of_dec_str(s, q3, c.check_interval_minutes as nat);
    assert(parse_u64_at(s, q3) == Some((c.check_interval_minutes, q4)));

    assert(crate::text::occurs_at(s, l3, q4));
    assert(parse_bool_at(s, q5) == Some((c.auto_update, q6))) by {
        if c.auto_update {
            assert(crate::text::occurs_at(s, "true"@, q5));
        } else {
            assert(s[q5] == 'f') by {
                assert(s.subrange(q5, q6)[0] == s[q5]);
            }
            assert(!crate::text::occurs_at(s, "true"@, q5)) by {
                if crate::text::occurs_at(s, "true"@, q5) {
                    assert(s.subrange(q5, q5 + 4)[0] == 't');
                }
            }
            assert(crate::text::occurs_at(s, "false"@, q5));
        }
    }
    assert(crate::text::occurs_at(s, l4, q6));
    assert(parse_bool_at(s, q7) == Some((c.start_with_windows, q8))) by {
        if c.start_with_windows {
            assert(crate::text::occurs_at(s, "true"@, q7));
        } else {
            assert(s[q7] == 'f') by {
                assert(s.subrange(q7, q8)[0] == s[q7]);
            }
            assert(!crate::text::occurs_at(s, "true"@, q7)) by {
                if crate::text::occurs_at(s, "true"@, q7) {
                    assert(s.subrange(q7, q7 + 4)[0] == 't');
                }
            }
            assert(crate::text::occurs_at(s, "false"@, q7));
        }
    }
    assert(crate::text::occurs_at(s, l5, q8));
    assert(q8 + l5.len() == s.len());
}

} // verus!
