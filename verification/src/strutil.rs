//! Character-level string helpers: whitespace trimming, lexicographic order,
//! decimal parsing and rendering.
//!
//! Exec code works over `Vec<char>`, whose view is the same `Seq<char>` as a
//! string's view, so contracts can speak about string content directly.

use vstd::prelude::*;
use vstd::relations::{sorted_by, total_ordering};
use vstd::string::StrSliceExecFns;

verus! {

/// The characters with the Unicode `White_Space` property, the set that
/// `str::trim` removes at either end.
pub open spec fn is_space(c: char) -> bool {
    ||| c == ' '
    ||| c == '\t'
    ||| c == '\n'
    ||| c == '\r'
    ||| c as int == 0xb
    ||| c as int == 0xc
    ||| c as int == 0x85
    ||| c as int == 0xa0
    ||| c as int == 0x1680
    ||| (0x2000 <= c as int <= 0x200a)
    ||| c as int == 0x2028
    ||| c as int == 0x2029
    ||| c as int == 0x202f
    ||| c as int == 0x205f
    ||| c as int == 0x3000
}

/// Whether `c` has the Unicode `White_Space` property.
pub fn is_space_char(c: char) -> (r: bool)
    ensures
        r == is_space(c),
{
    let u = c as u32;
    u == 0x20 || u == 0x9 || u == 0xa || u == 0xd || u == 0xb || u == 0xc || u == 0x85
        || u == 0xa0 || u == 0x1680 || (0x2000 <= u && u <= 0x200a) || u == 0x2028 || u == 0x2029
        || u == 0x202f || u == 0x205f || u == 0x3000
}

/// `s` without leading whitespace.
pub open spec fn trim_start(s: Seq<char>) -> Seq<char>
    decreases s.len(),
{
    if s.len() > 0 && is_space(s[0]) {
        trim_start(s.drop_first())
    } else {
        s
    }
}

/// `s` without trailing whitespace.
pub open spec fn trim_end(s: Seq<char>) -> Seq<char>
    decreases s.len(),
{
    if s.len() > 0 && is_space(s.last()) {
        trim_end(s.drop_last())
    } else {
        s
    }
}

/// `s` without leading and trailing whitespace.
pub open spec fn trim(s: Seq<char>) -> Seq<char> {
    trim_end(trim_start(s))
}

/// Dropping a whitespace prefix reaches `trim_start`.
proof fn lemma_trim_start_skip(s: Seq<char>, a: int)
    requires
        0 <= a <= s.len(),
        forall|k: int| 0 <= k < a ==> is_space(s[k]),
        a < s.len() ==> !is_space(s[a]),
    ensures
        trim_start(s) == s.skip(a),
    decreases a,
{
    if a == 0 {
        assert(s.skip(0) =~= s);
    } else {
        assert(is_space(s[0]));
        lemma_trim_start_skip(s.drop_first(), a - 1);
        assert(s.drop_first().skip(a - 1) =~= s.skip(a));
    }
}

/// Dropping a whitespace suffix reaches `trim_end`.
proof fn lemma_trim_end_take(s: Seq<char>, b: int)
    requires
        0 <= b <= s.len(),
        forall|k: int| b <= k < s.len() ==> is_space(s[k]),
        b > 0 ==> !is_space(s[b - 1]),
    ensures
        trim_end(s) == s.take(b),
    decreases s.len() - b,
{
    if b == s.len() {
        assert(s.take(b) =~= s);
    } else {
        assert(is_space(s.last()));
        lemma_trim_end_take(s.drop_last(), b);
        assert(s.drop_last().take(b) =~= s.take(b));
    }
}

/// A copy of `v[from..to]`.
pub fn subvec(v: &Vec<char>, from: usize, to: usize) -> (r: Vec<char>)
    requires
        from <= to <= v@.len(),
    ensures
        r@ == v@.subrange(from as int, to as int),
{
    let mut r: Vec<char> = Vec::new();
    let mut i: usize = from;
    while i < to
        invariant
            from <= i <= to <= v@.len(),
            r@ =~= v@.subrange(from as int, i as int),
        decreases to - i,
    {
        r.push(v[i]);
        proof {
            assert(v@.subrange(from as int, (i + 1) as int) =~= v@.subrange(
                from as int,
                i as int,
            ).push(v@[i as int]));
        }
        i += 1;
    }
    r
}

/// A copy of `v` without leading and trailing whitespace.
pub fn trim_chars(v: &Vec<char>) -> (r: Vec<char>)
    ensures
        r@ == trim(v@),
{
    let n = v.len();
    let mut a: usize = 0;
    while a < n && is_space_char(v[a])
        invariant
            a <= n,
            n == v@.len(),
            forall|k: int| 0 <= k < a ==> is_space(v@[k]),
        decreases n - a,
    {
        a += 1;
    }
    proof {
        lemma_trim_start_skip(v@, a as int);
    }
    let mut b: usize = n;
    while b > a && is_space_char(v[b - 1])
        invariant
            a <= b <= n,
            n == v@.len(),
            forall|k: int| b <= k < n ==> is_space(v@[k]),
        decreases b,
    {
        b -= 1;
    }
    proof {
        let t = v@.skip(a as int);
        lemma_trim_end_take(t, b - a);
        assert(t.take(b - a) =~= v@.subrange(a as int, b as int));
    }
    subvec(v, a, b)
}

/// The characters of `s`, in order.
pub fn chars_vec(s: &str) -> (r: Vec<char>)
    ensures
        r@ == s@,
{
    let n = s.unicode_len();
    let mut r: Vec<char> = Vec::new();
    let mut i: usize = 0;
    while i < n
        invariant
            i <= n,
            n == s@.len(),
            r@ =~= s@.take(i as int),
        decreases n - i,
    {
        r.push(s.get_char(i));
        proof {
            s@.lemma_take_succ_push(i as int);
        }
        i += 1;
    }
    proof {
        assert(s@.take(n as int) =~= s@);
    }
    r
}

/// Relies on `String::push`: appending one character appends exactly that
/// character to the string's content.
pub assume_specification[ String::push ](s: &mut String, c: char)
    ensures
        final(s)@ == old(s)@.push(c),
;

/// The string holding exactly the characters of `v`, in order.
pub fn string_from_chars(v: &Vec<char>) -> (r: String)
    ensures
        r@ == v@,
{
    let mut r = String::new();
    let mut i: usize = 0;
    while i < v.len()
        invariant
            i <= v@.len(),
            r@ =~= v@.take(i as int),
        decreases v@.len() - i,
    {
        r.push(v[i]);
        proof {
            v@.lemma_take_succ_push(i as int);
        }
        i += 1;
    }
    proof {
        assert(v@.take(v@.len() as int) =~= v@);
    }
    r
}

/// Lexicographic order on character sequences by code point, the order in
/// which `str`'s own comparison sorts strings.
pub open spec fn lex_le(a: Seq<char>, b: Seq<char>) -> bool
    decreases a.len(),
{
    if a.len() == 0 {
        true
    } else if b.len() == 0 {
        false
    } else if a[0] == b[0] {
        lex_le(a.drop_first(), b.drop_first())
    } else {
        (a[0] as int) < (b[0] as int)
    }
}

/// `lex_le` is reflexive.
pub proof fn lemma_lex_le_reflexive(a: Seq<char>)
    ensures
        lex_le(a, a),
    decreases a.len(),
{
    if a.len() > 0 {
        lemma_lex_le_reflexive(a.drop_first());
    }
}

/// `lex_le` is antisymmetric.
pub proof fn lemma_lex_le_antisymmetric(a: Seq<char>, b: Seq<char>)
    requires
        lex_le(a, b),
        lex_le(b, a),
    ensures
        a == b,
    decreases a.len(),
{
    if a.len() == 0 {
        assert(b.len() == 0);
        assert(a =~= b);
    } else {
        assert(b.len() > 0);
        assert(a[0] == b[0]);
        lemma_lex_le_antisymmetric(a.drop_first(), b.drop_first());
        assert(a =~= seq![a[0]] + a.drop_first());
        assert(b =~= seq![b[0]] + b.drop_first());
    }
}

/// `lex_le` is transitive.
pub proof fn lemma_lex_le_transitive(a: Seq<char>, b: Seq<char>, c: Seq<char>)
    requires
        lex_le(a, b),
        lex_le(b, c),
    ensures
        lex_le(a, c),
    decreases a.len(),
{
    if a.len() == 0 {
    } else {
        assert(b.len() > 0);
        assert(c.len() > 0);
        if a[0] == b[0] && b[0] == c[0] {
            lemma_lex_le_transitive(a.drop_first(), b.drop_first(), c.drop_first());
        }
    }
}

/// Any two character sequences compare under `lex_le`, one way or the other.
pub proof fn lemma_lex_le_connected(a: Seq<char>, b: Seq<char>)
    ensures
        lex_le(a, b) || lex_le(b, a),
    decreases a.len(),
{
    if a.len() > 0 && b.len() > 0 && a[0] == b[0] {
        lemma_lex_le_connected(a.drop_first(), b.drop_first());
    }
}

/// `lex_le` as a binary relation is a total ordering.
pub proof fn lemma_lex_le_total_ordering()
    ensures
        total_ordering(lex_leq()),
{
    let leq = lex_leq();
    assert forall|a: Seq<char>| #[trigger] leq(a, a) by {
        lemma_lex_le_reflexive(a);
    }
    assert forall|a: Seq<char>, b: Seq<char>| #[trigger] leq(a, b) && #[trigger] leq(b, a)
        implies a == b by {
        lemma_lex_le_antisymmetric(a, b);
    }
    assert forall|a: Seq<char>, b: Seq<char>, c: Seq<char>|
        #[trigger] leq(a, b) && #[trigger] leq(b, c) implies leq(a, c) by {
        lemma_lex_le_transitive(a, b, c);
    }
    assert forall|a: Seq<char>, b: Seq<char>| #[trigger] leq(a, b) || #[trigger] leq(b, a) by {
        lemma_lex_le_connected(a, b);
    }
}

/// Where the first `i` characters agree, the comparison is decided at `i`.
proof fn lemma_lex_le_common_prefix(a: Seq<char>, b: Seq<char>, i: int)
    requires
        0 <= i <= a.len(),
        i <= b.len(),
        forall|k: int| 0 <= k < i ==> a[k] == b[k],
    ensures
        i == a.len() ==> lex_le(a, b),
        i == b.len() && i < a.len() ==> !lex_le(a, b),
        i < a.len() && i < b.len() && a[i] != b[i] ==> lex_le(a, b) == ((a[i] as int) < (
        b[i] as int)),
    decreases i,
{
    if i == 0 {
    } else {
        assert(a[0] == b[0]);
        assert(a.len() > 0 && b.len() > 0);
        lemma_lex_le_common_prefix(a.drop_first(), b.drop_first(), i - 1);
    }
}

/// Compare two strings in lexicographic code-point order.
pub fn str_lex_le(a: &str, b: &str) -> (r: bool)
    ensures
        r == lex_le(a@, b@),
{
    let na = a.unicode_len();
    let nb = b.unicode_len();
    let mut i: usize = 0;
    while i < na && i < nb
        invariant
            i <= na,
            i <= nb,
            na == a@.len(),
            nb == b@.len(),
            forall|k: int| 0 <= k < i ==> a@[k] == b@[k],
        decreases na - i,
    {
        let ca = a.get_char(i);
        let cb = b.get_char(i);
        if ca != cb {
            proof {
                lemma_lex_le_common_prefix(a@, b@, i as int);
            }
            return (ca as u32) < (cb as u32);
        }
        i += 1;
    }
    proof {
        lemma_lex_le_common_prefix(a@, b@, i as int);
    }
    na <= nb
}

/// The `lex_le` order as a relation value, for sorting and sortedness.
pub open spec fn lex_leq() -> spec_fn(Seq<char>, Seq<char>) -> bool {
    |a: Seq<char>, b: Seq<char>| lex_le(a, b)
}

/// Strings sorted lexicographically by their content.
pub open spec fn sorted_lex(s: Seq<Seq<char>>) -> bool {
    sorted_by(s, lex_leq())
}

/// The content of each string of a sequence, in order.
pub open spec fn str_views(s: Seq<String>) -> Seq<Seq<char>> {
    s.map_values(|x: String| x@)
}

/// Whether two strings hold the same characters.
pub fn str_eq(a: &str, b: &str) -> (r: bool)
    ensures
        r == (a@ == b@),
{
    let na = a.unicode_len();
    let nb = b.unicode_len();
    if na != nb {
        return false;
    }
    let mut i: usize = 0;
    while i < na
        invariant
            i <= na,
            na == a@.len(),
            nb == b@.len(),
            na == nb,
            forall|k: int| 0 <= k < i ==> a@[k] == b@[k],
        decreases na - i,
    {
        if a.get_char(i) != b.get_char(i) {
            return false;
        }
        i += 1;
    }
    proof {
        assert(a@ =~= b@);
    }
    true
}

/// Whether `c` is an ASCII digit.
pub open spec fn is_digit(c: char) -> bool {
    0x30 <= c as int <= 0x39
}

/// The numeric value of one ASCII digit.
pub open spec fn digit_val(c: char) -> int {
    c as int - 0x30
}

/// Whether every character of `s` is an ASCII digit; true of the empty
/// sequence.
pub open spec fn all_digits(s: Seq<char>) -> bool {
    forall|i: int| 0 <= i < s.len() ==> is_digit(s[i])
}

/// Whether `c` is an ASCII digit.
pub fn is_digit_char(c: char) -> (r: bool)
    ensures
        r == is_digit(c),
{
    let u = c as u32;
    0x30 <= u && u <= 0x39
}

/// The number an ASCII-digit sequence denotes in decimal.
pub open spec fn digits_value(s: Seq<char>) -> int
    decreases s.len(),
{
    if s.len() == 0 {
        0
    } else {
        digits_value(s.drop_last()) * 10 + digit_val(s.last())
    }
}

/// Digit strings denote values that never shrink as digits are appended.
pub proof fn lemma_digits_value_monotone(s: Seq<char>, i: int)
    requires
        all_digits(s),
        0 <= i <= s.len(),
    ensures
        0 <= digits_value(s.take(i)) <= digits_value(s),
    decreases s.len() - i,
{
    if i == s.len() {
        assert(s.take(i) =~= s);
        lemma_digits_value_nonneg(s);
    } else {
        lemma_digits_value_monotone(s, i + 1);
        let t = s.take(i + 1);
        assert(t.drop_last() =~= s.take(i));
        assert(is_digit(t.last()));
        lemma_digits_value_nonneg(s.take(i));
    }
}

/// A digit string denotes a value of at least zero.
pub proof fn lemma_digits_value_nonneg(s: Seq<char>)
    requires
        all_digits(s),
    ensures
        digits_value(s) >= 0,
    decreases s.len(),
{
    if s.len() > 0 {
        assert(all_digits(s.drop_last()));
        lemma_digits_value_nonneg(s.drop_last());
    }
}

/// Parse an unsigned ASCII-digit sequence as an `i64`.
///
/// Returns the denoted value exactly when the sequence is non-empty, all
/// digits, and the value fits; `None` otherwise.
pub fn parse_digits_i64(v: &Vec<char>) -> (r: Option<i64>)
    ensures
        r is Some <==> v@.len() > 0 && all_digits(v@) && digits_value(v@) <= i64::MAX,
        r matches Some(n) ==> n == digits_value(v@),
{
    if v.len() == 0 {
        return None;
    }
    let mut acc: i64 = 0;
    let mut i: usize = 0;
    while i < v.len()
        invariant
            i <= v@.len(),
            all_digits(v@.take(i as int)),
            acc == digits_value(v@.take(i as int)),
            acc >= 0,
        decreases v@.len() - i,
    {
        let c = v[i];
        if !is_digit_char(c) {
            return None;
        }
        let d = (c as u32 - 0x30) as i64;
        proof {
            assert(v@.take((i + 1) as int).drop_last() =~= v@.take(i as int));
            assert(all_digits(v@.take((i + 1) as int)));
        }
        acc = match acc.checked_mul(10) {
            Some(m) => match m.checked_add(d) {
                Some(a) => a,
                None => {
                    proof {
                        if all_digits(v@) {
                            lemma_digits_value_monotone(v@, (i + 1) as int);
                        }
                    }
                    return None;
                },
            },
            None => {
                proof {
                    if all_digits(v@) {
                        lemma_digits_value_monotone(v@, (i + 1) as int);
                    }
                }
                return None;
            },
        };
        i += 1;
    }
    proof {
        assert(v@.take(v@.len() as int) =~= v@);
    }
    Some(acc)
}

/// The number a decimal string with an optional sign denotes, if it has the
/// shape an `i64` parse accepts and the value fits.
pub open spec fn parse_i64_spec(s: Seq<char>) -> Option<int> {
    if s.len() == 0 {
        None
    } else if s[0] == '+' || s[0] == '-' {
        let d = s.drop_first();
        if d.len() > 0 && all_digits(d) {
            let v = if s[0] == '-' {
                -digits_value(d)
            } else {
                digits_value(d)
            };
            if i64::MIN <= v <= i64::MAX {
                Some(v)
            } else {
                None
            }
        } else {
            None
        }
    } else if all_digits(s) {
        if digits_value(s) <= i64::MAX {
            Some(digits_value(s))
        } else {
            None
        }
    } else {
        None
    }
}

/// Parse a decimal string with an optional leading sign as an `i64`, exactly
/// as `i64`'s own string parse accepts it.
pub fn parse_i64(v: &Vec<char>) -> (r: Option<i64>)
    ensures
        match parse_i64_spec(v@) {
            Some(n) => r matches Some(m) && m == n,
            None => r is None,
        },
{
    if v.len() == 0 {
        return None;
    }
    let c0 = v[0];
    let neg = c0 == '-';
    let start: usize = if c0 == '-' || c0 == '+' {
        1
    } else {
        0
    };
    let ghost d: Seq<char> = v@.skip(start as int);
    proof {
        assert(v@.skip(0) =~= v@);
    }
    if v.len() == start {
        return None;
    }
    proof {
        assert(d.len() > 0);
    }
    let mut acc: i128 = 0;
    let mut i: usize = start;
    while i < v.len()
        invariant
            start <= i <= v@.len(),
            start <= 1,
            v@.len() > 0,
            (start == 1) == (v@[0] == '+' || v@[0] == '-'),
            d == v@.skip(start as int),
            d.len() > 0,
            all_digits(d.take((i - start) as int)),
            acc == digits_value(d.take((i - start) as int)),
            0 <= acc <= 0x8000_0000_0000_0000,
        decreases v@.len() - i,
    {
        let c = v[i];
        if !is_digit_char(c) {
            proof {
                assert(d[(i - start) as int] == c);
                assert(!all_digits(d));
                if start == 1 {
                    assert(v@.drop_first() =~= d);
                } else {
                    assert(v@.skip(0) =~= v@);
                    assert(d =~= v@);
                    assert(!all_digits(v@));
                }
                assert(parse_i64_spec(v@) is None);
            }
            return None;
        }
        proof {
            assert(d.take((i + 1 - start) as int).drop_last() =~= d.take((i - start) as int));
            assert(all_digits(d.take((i + 1 - start) as int)));
        }
        let dv = (c as u32 - 0x30) as i128;
        acc = acc * 10 + dv;
        i += 1;
        if acc > 0x8000_0000_0000_0000 {
            proof {
                if all_digits(d) {
                    lemma_digits_value_monotone(d, (i - start) as int);
                    assert(digits_value(d) > 0x8000_0000_0000_0000);
                }
                if start == 1 {
                    assert(v@.drop_first() =~= d);
                } else {
                    assert(v@.skip(0) =~= v@);
                    assert(d =~= v@);
                }
                assert(parse_i64_spec(v@) is None);
            }
            return None;
        }
    }
    proof {
        assert(d.take(d.len() as int) =~= d);
        assert(acc == digits_value(d));
        assert(all_digits(d));
        if start == 1 {
            assert(v@.drop_first() =~= d);
        } else {
            assert(v@.skip(0) =~= v@);
            assert(d =~= v@);
        }
    }
    if neg {
        Some((-acc) as i64)
    } else {
        if acc > 0x7fff_ffff_ffff_ffff {
            None
        } else {
            Some(acc as i64)
        }
    }
}

/// The decimal digit character for `d`.
pub open spec fn digit_char(d: int) -> char {
    (0x30 + d) as char
}

/// The decimal digits of `n`, most significant first, with no sign and no
/// leading zero except for zero itself.
pub open spec fn dec_digits(n: int) -> Seq<char>
    decreases n,
{
    if n < 10 {
        seq![digit_char(if n >= 0 { n } else { 0 })]
    } else {
        dec_digits(n / 10) + seq![digit_char(n % 10)]
    }
}

/// The decimal rendering of `n`: a minus sign for negative values, then the
/// digits.
pub open spec fn dec_str(n: int) -> Seq<char> {
    if n < 0 {
        seq!['-'] + dec_digits(-n)
    } else {
        dec_digits(n)
    }
}

/// Render `n` in decimal, as `i64`'s own display does.
pub fn i64_to_string(n: i64) -> (r: String)
    ensures
        r@ == dec_str(n as int),
{
    let neg = n < 0;
    let wide: i128 = n as i128;
    let mut a: i128 = if neg {
        -wide
    } else {
        wide
    };
    let ghost a0: int = a as int;
    let mut low: Vec<char> = Vec::new();
    if a == 0 {
        low.push('0');
        proof {
            assert(dec_digits(0) =~= low@.reverse());
        }
    }
    while a > 0
        invariant
            0 <= a <= a0,
            a0 <= 0x8000_0000_0000_0000,
            if a > 0 {
                dec_digits(a0) =~= dec_digits(a as int) + low@.reverse()
            } else {
                dec_digits(a0) =~= low@.reverse()
            },
        decreases a,
    {
        let d = (a % 10) as u8;
        let c = (0x30 + d) as char;
        proof {
            assert(c == digit_char((a % 10) as int));
            assert((low@.push(c)).reverse() =~= seq![c] + low@.reverse());
        }
        low.push(c);
        a = a / 10;
    }
    let mut out: Vec<char> = Vec::new();
    if neg {
        out.push('-');
    }
    let mut i: usize = low.len();
    while i > 0
        invariant
            i <= low@.len(),
            out@ =~= (if neg {
                seq!['-']
            } else {
                Seq::<char>::empty()
            }) + low@.reverse().take(low@.len() - i),
        decreases i,
    {
        i -= 1;
        out.push(low[i]);
        proof {
            assert(low@.reverse().take(low@.len() - i) =~= low@.reverse().take(
                low@.len() - (i + 1),
            ).push(low@[i as int]));
        }
    }
    proof {
        assert(low@.reverse().take(low@.len() as int) =~= low@.reverse());
        if neg {
            assert(n as int == -a0);
        } else {
            assert(n as int == a0);
        }
    }
    string_from_chars(&out)
}

} // verus!
