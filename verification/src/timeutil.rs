//! Resolution of textual time expressions.
//!
//! `resolve_relative` turns a time expression into one of three shapes:
//! all-digit text and RFC 3339 text stay as they are (absolute); `now` and
//! `now-<N><unit>` resolve against a reference instant (relative); anything
//! else, including arithmetic that would overflow, degrades to raw text and
//! is never an error.

use vstd::prelude::*;
use vstd::string::StrSliceExecFns;

use crate::strutil::{
    all_digits, chars_vec, dec_str, digits_value, i64_to_string, is_digit, is_digit_char,
    parse_digits_i64, parse_i64, parse_i64_spec, string_from_chars, subvec, trim, trim_chars,
};

verus! {

/// Result of resolving a time or interval parameter.
#[derive(Debug)]
pub enum ResolvedParam {
    /// Original text left as it is: the format was not recognized.
    Raw(String),
    /// An absolute instant, kept as the text given.
    Absolute(String),
    /// Relative text, resolved to Unix seconds rendered in decimal.
    Relative(String),
}

/// The shape and payload of a resolved parameter.
pub enum ResolvedV {
    Raw(Seq<char>),
    Absolute(Seq<char>),
    Relative(Seq<char>),
}

/// The content of a resolved parameter.
pub open spec fn resolved_view(r: ResolvedParam) -> ResolvedV {
    match r {
        ResolvedParam::Raw(s) => ResolvedV::Raw(s@),
        ResolvedParam::Absolute(s) => ResolvedV::Absolute(s@),
        ResolvedParam::Relative(s) => ResolvedV::Relative(s@),
    }
}

/// The text inside a resolved parameter, whatever its shape.
pub open spec fn resolved_payload(v: ResolvedV) -> Seq<char> {
    match v {
        ResolvedV::Raw(s) => s,
        ResolvedV::Absolute(s) => s,
        ResolvedV::Relative(s) => s,
    }
}

/// Whether `time::OffsetDateTime::parse` accepts a text as RFC 3339: a
/// function of the text alone.
pub uninterp spec fn rfc3339_parses(s: Seq<char>) -> bool;

/// Relies on `time::OffsetDateTime::parse` with the RFC 3339 well-known
/// format: whether a text parses depends on the text alone.
#[verifier::external_body]
fn is_rfc3339(s: &str) -> (r: bool)
    ensures
        r == rfc3339_parses(s@),
{
    time::OffsetDateTime::parse(s, &time::format_description::well_known::Rfc3339).is_ok()
}

/// The first index of `s` holding a character that is not an ASCII digit.
pub open spec fn find_nondigit(s: Seq<char>) -> Option<int>
    decreases s.len(),
{
    if s.len() == 0 {
        None
    } else if !is_digit(s[0]) {
        Some(0)
    } else {
        match find_nondigit(s.drop_first()) {
            Some(i) => Some(i + 1),
            None => None,
        }
    }
}

/// Where a scan for the first non-digit stops at `i`, `find_nondigit` agrees.
proof fn lemma_find_nondigit_at(s: Seq<char>, i: int)
    requires
        0 <= i <= s.len(),
        forall|k: int| 0 <= k < i ==> is_digit(s[k]),
        i < s.len() ==> !is_digit(s[i]),
    ensures
        i < s.len() ==> find_nondigit(s) == Some(i),
        i == s.len() ==> find_nondigit(s) is None,
    decreases i,
{
    if i > 0 {
        lemma_find_nondigit_at(s.drop_first(), i - 1);
    }
}

/// How many seconds one step of this unit lasts, for the units `s`, `m`, `h`
/// and `d`.
pub open spec fn unit_seconds(u: Seq<char>) -> Option<int> {
    if u == seq!['s'] {
        Some(1)
    } else if u == seq!['m'] {
        Some(60)
    } else if u == seq!['h'] {
        Some(3600)
    } else if u == seq!['d'] {
        Some(86400)
    } else {
        None
    }
}

/// What resolving `now-<rest>` against `now` yields.
pub open spec fn spec_resolve_offset(s: Seq<char>, rest: Seq<char>, now: int) -> ResolvedV {
    match find_nondigit(rest) {
        None => ResolvedV::Raw(s),
        Some(i) => {
            let num = rest.take(i);
            let unit = rest.skip(i);
            if num.len() == 0 || digits_value(num) > i64::MAX {
                ResolvedV::Raw(s)
            } else {
                match unit_seconds(unit) {
                    None => ResolvedV::Raw(s),
                    Some(mult) => {
                        let delta = digits_value(num) * mult;
                        if delta > i64::MAX || now - delta < i64::MIN {
                            ResolvedV::Raw(s)
                        } else {
                            ResolvedV::Relative(dec_str(now - delta))
                        }
                    },
                }
            }
        },
    }
}

/// What resolving a time expression yields: all-digit text — the empty text
/// counts, vacuously — and RFC 3339 text are absolute and unchanged; with a
/// reference instant, `now` and `now-<N><unit>` resolve to Unix seconds;
/// everything else is raw.
pub open spec fn spec_resolve(input: Seq<char>, now: Option<i64>) -> ResolvedV {
    let s = trim(input);
    if all_digits(s) {
        ResolvedV::Absolute(s)
    } else if rfc3339_parses(s) {
        ResolvedV::Absolute(s)
    } else {
        match now {
            None => ResolvedV::Raw(s),
            Some(n) => {
                if s == seq!['n', 'o', 'w'] {
                    ResolvedV::Relative(dec_str(n as int))
                } else if s.len() >= 4 && s.take(4) == seq!['n', 'o', 'w', '-'] {
                    spec_resolve_offset(s, s.skip(4), n as int)
                } else {
                    ResolvedV::Raw(s)
                }
            },
        }
    }
}

/// Split text into its leading ASCII digits and the rest, if the rest is
/// non-empty.
pub fn split_num_unit<'a>(s: &'a str) -> (r: Option<(&'a str, &'a str)>)
    ensures
        match find_nondigit(s@) {
            Some(i) => r matches Some(p) && p.0@ == s@.take(i) && p.1@ == s@.skip(i),
            None => r is None,
        },
{
    let n = s.unicode_len();
    let mut i: usize = 0;
    while i < n
        invariant
            i <= n,
            n == s@.len(),
            forall|k: int| 0 <= k < i ==> is_digit(s@[k]),
        decreases n - i,
    {
        if !is_digit_char(s.get_char(i)) {
            proof {
                lemma_find_nondigit_at(s@, i as int);
                assert(s@.subrange(0, i as int) =~= s@.take(i as int));
                assert(s@.subrange(i as int, n as int) =~= s@.skip(i as int));
            }
            return Some((s.substring_char(0, i), s.substring_char(i, n)));
        }
        i += 1;
    }
    proof {
        lemma_find_nondigit_at(s@, n as int);
    }
    None
}

/// Whether every character of `v` is an ASCII digit.
fn all_digits_vec(v: &Vec<char>) -> (r: bool)
    ensures
        r == all_digits(v@),
{
    let mut i: usize = 0;
    while i < v.len()
        invariant
            i <= v@.len(),
            forall|k: int| 0 <= k < i ==> is_digit(v@[k]),
        decreases v@.len() - i,
    {
        if !is_digit_char(v[i]) {
            return false;
        }
        i += 1;
    }
    true
}

/// Resolve a time expression against an optional reference instant, given as
/// Unix seconds. Unrecognized input always degrades to raw text: resolution
/// has no failure mode.
pub fn resolve_relative(input: &str, now: Option<i64>) -> (r: ResolvedParam)
    ensures
        resolved_view(r) == spec_resolve(input@, now),
{
    let all = chars_vec(input);
    let t = trim_chars(&all);
    let s = string_from_chars(&t);
    if all_digits_vec(&t) {
        return ResolvedParam::Absolute(s);
    }
    if is_rfc3339(s.as_str()) {
        return ResolvedParam::Absolute(s);
    }
    let n = match now {
        Some(n) => n,
        None => {
            return ResolvedParam::Raw(s);
        },
    };
    if t.len() == 3 && t[0] == 'n' && t[1] == 'o' && t[2] == 'w' {
        proof {
            assert(t@ =~= seq!['n', 'o', 'w']);
        }
        return ResolvedParam::Relative(i64_to_string(n));
    }
    if t.len() >= 4 && t[0] == 'n' && t[1] == 'o' && t[2] == 'w' && t[3] == '-' {
        proof {
            assert(t@.take(4) =~= seq!['n', 'o', 'w', '-']);
        }
        let rest = subvec(&t, 4, t.len());
        let mut i: usize = 0;
        while i < rest.len() && is_digit_char(rest[i])
            invariant
                i <= rest@.len(),
                forall|k: int| 0 <= k < i ==> is_digit(rest@[k]),
            decreases rest@.len() - i,
        {
            i += 1;
        }
        proof {
            lemma_find_nondigit_at(rest@, i as int);
        }
        if i == rest.len() {
            return ResolvedParam::Raw(s);
        }
        let num = subvec(&rest, 0, i);
        let unit = subvec(&rest, i, rest.len());
        proof {
            assert(num@ =~= rest@.take(i as int));
            assert(unit@ =~= rest@.skip(i as int));
            assert(crate::strutil::all_digits(num@));
        }
        let value = match parse_digits_i64(&num) {
            Some(v) => v,
            None => {
                return ResolvedParam::Raw(s);
            },
        };
        let mult: i64 = if unit.len() == 1 && unit[0] == 's' {
            proof {
                assert(unit@ =~= seq!['s']);
            }
            1
        } else if unit.len() == 1 && unit[0] == 'm' {
            proof {
                assert(unit@ =~= seq!['m']);
            }
            60
        } else if unit.len() == 1 && unit[0] == 'h' {
            proof {
                assert(unit@ =~= seq!['h']);
            }
            3600
        } else if unit.len() == 1 && unit[0] == 'd' {
            proof {
                assert(unit@ =~= seq!['d']);
            }
            86400
        } else {
            proof {
                if unit@ == seq!['s'] {
                    assert(unit@.len() == 1 && unit@[0] == 's');
                }
                if unit@ == seq!['m'] {
                    assert(unit@.len() == 1 && unit@[0] == 'm');
                }
                if unit@ == seq!['h'] {
                    assert(unit@.len() == 1 && unit@[0] == 'h');
                }
                if unit@ == seq!['d'] {
                    assert(unit@.len() == 1 && unit@[0] == 'd');
                }
                assert(unit_seconds(unit@) is None);
            }
            return ResolvedParam::Raw(s);
        };
        proof {
            crate::strutil::lemma_digits_value_nonneg(num@);
            assert(value >= 0);
            assert(mult >= 1);
        }
        let delta = match value.checked_mul(mult) {
            Some(d) => d,
            None => {
                proof {
                    assert(value * mult >= 0) by (nonlinear_arith)
                        requires
                            value >= 0,
                            mult >= 1,
                    ;
                    assert(value * mult > i64::MAX);
                }
                return ResolvedParam::Raw(s);
            },
        };
        proof {
            assert(delta >= 0) by (nonlinear_arith)
                requires
                    value >= 0,
                    mult >= 1,
                    delta == value * mult,
            ;
        }
        let ts = match n.checked_sub(delta) {
            Some(ts) => ts,
            None => {
                proof {
                    assert(n - delta < i64::MIN);
                }
                return ResolvedParam::Raw(s);
            },
        };
        return ResolvedParam::Relative(i64_to_string(ts));
    }
    ResolvedParam::Raw(s)
}

/// The text a resolved parameter carries, whatever shape it took.
pub fn stringify_resolved(input: &str, now: Option<i64>) -> (r: String)
    ensures
        r@ == resolved_payload(spec_resolve(input@, now)),
{
    match resolve_relative(input, now) {
        ResolvedParam::Absolute(s) => s,
        ResolvedParam::Relative(s) => s,
        ResolvedParam::Raw(s) => s,
    }
}

/// What a time parameter denotes in milliseconds: the resolved payload read
/// as a number — zero if it is not one — scaled to milliseconds, and zero
/// again if the scaling leaves the 64-bit range.
pub open spec fn spec_parse_time_param(s: Seq<char>, now: Option<i64>) -> int {
    let p = resolved_payload(spec_resolve(s, now));
    let v = match parse_i64_spec(p) {
        Some(v) => v,
        None => 0,
    };
    if i64::MIN <= v * 1000 <= i64::MAX {
        v * 1000
    } else {
        0
    }
}

/// Read a time parameter as a millisecond timestamp: resolve it, parse the
/// payload as Unix seconds — unparseable text counts as zero — and scale to
/// milliseconds.
pub fn parse_time_param(param: &str, fixed_now: Option<i64>) -> (r: i64)
    ensures
        r == spec_parse_time_param(param@, fixed_now),
{
    let payload = stringify_resolved(param, fixed_now);
    let chars = chars_vec(payload.as_str());
    let v: i64 = match parse_i64(&chars) {
        Some(v) => v,
        None => 0,
    };
    match v.checked_mul(1000) {
        Some(ms) => ms,
        None => 0,
    }
}

} // verus!
