//! The selector parser and query engine.
//!
//! The grammar accepted is `<metric-name>? ('{' <label-expr> (',' <label-expr>)* '}')?`,
//! where a label expression is `name OP "value"` with `OP` one of `=`, `!=`,
//! `=~`, `!~`. A non-empty metric name becomes an equality matcher on the
//! reserved label name `__name__`. Operators are detected by the first
//! literal occurrence of each symbol, searched in the order `!=`, `!~`, `=~`,
//! `=`. A regex operator's pattern is compiled anchored, so it must match a
//! label value in full. A query runs the parsed matchers against storage and
//! keeps, for each
//! matched series, the samples inside the inclusive time range; series left
//! with no samples are dropped.

use vstd::prelude::*;
use vstd::string::StringExecFns;

use crate::matchers::{
    anchor_pattern, anchored, matches_all, regex_accepts, regex_compile, regex_compiles,
    regex_match, EqualMatcher, LabelMatcher, NotEqualMatcher, NotRegexMatcher, RegexMatcher,
};
use crate::storage::{
    in_range, labels_view, store_view, Label, LabelV, MemoryStorage, Sample, SeriesV, Storage,
};
use crate::strutil::{chars_vec, str_views, string_from_chars, subvec, trim, trim_chars};

verus! {

/// Why a selector was rejected. Every rejection is one bad-query condition;
/// no partial parse is kept.
#[derive(Debug, Clone, Copy, PartialEq, Eq)]
pub enum ParseError {
    /// The label block is missing a brace or otherwise malformed.
    InvalidLabelSyntax,
    /// A label expression's value is not a double-quoted string.
    ExpectedQuotedValue,
    /// A label expression has none of the four operators.
    InvalidLabelMatcher,
    /// A regex operator's pattern does not compile.
    InvalidRegex,
}

/// What one parsed label expression means: the operator, the label name and
/// the value or pattern text.
pub enum MatcherSpec {
    Equal { name: Seq<char>, value: Seq<char> },
    NotEqual { name: Seq<char>, value: Seq<char> },
    Regex { name: Seq<char>, pattern: Seq<char> },
    NotRegex { name: Seq<char>, pattern: Seq<char> },
}

/// Whether one parsed expression accepts a label set, by the text it carries.
pub open spec fn spec_matcher_matches(s: MatcherSpec, labels: Seq<LabelV>) -> bool {
    match s {
        MatcherSpec::Equal { name, value } => exists|i: int|
            0 <= i < labels.len() && labels[i].0 == name && labels[i].1 == value,
        MatcherSpec::NotEqual { name, value } => !(exists|i: int|
            0 <= i < labels.len() && labels[i].0 == name && labels[i].1 == value),
        MatcherSpec::Regex { name, pattern } => exists|i: int|
            0 <= i < labels.len() && labels[i].0 == name && regex_accepts(
                anchored(pattern),
                labels[i].1,
            ),
        MatcherSpec::NotRegex { name, pattern } => !(exists|i: int|
            0 <= i < labels.len() && labels[i].0 == name && regex_accepts(
                anchored(pattern),
                labels[i].1,
            )),
    }
}

/// All parsed expressions accept the label set; vacuously true of none.
pub open spec fn spec_all_match(ss: Seq<MatcherSpec>, labels: Seq<LabelV>) -> bool {
    forall|i: int| 0 <= i < ss.len() ==> spec_matcher_matches(ss[i], labels)
}

/// An executable matcher carries out one parsed expression: same kind, same
/// name, and for the regex kinds a regex that answers exactly as the pattern
/// text does.
pub open spec fn matcher_fits(m: LabelMatcher, s: MatcherSpec) -> bool {
    match s {
        MatcherSpec::Equal { name, value } => m matches LabelMatcher::Equal(em) && em.name@
            == name && em.value@ == value,
        MatcherSpec::NotEqual { name, value } => m matches LabelMatcher::NotEqual(em) && em.name@
            == name && em.value@ == value,
        MatcherSpec::Regex { name, pattern } => m matches LabelMatcher::Regex(rm) && rm.name@
            == name && regex_compiles(anchored(pattern)) && forall|t: Seq<char>|
            #[trigger] regex_match(rm.pattern, t) == regex_accepts(anchored(pattern), t),
        MatcherSpec::NotRegex { name, pattern } => m matches LabelMatcher::NotRegex(rm)
            && rm.name@ == name && regex_compiles(anchored(pattern)) && forall|t: Seq<char>|
            #[trigger] regex_match(rm.pattern, t) == regex_accepts(anchored(pattern), t),
    }
}

/// Each executable matcher carries out the parsed expression at its index.
pub open spec fn matchers_fit(ms: Seq<LabelMatcher>, ss: Seq<MatcherSpec>) -> bool {
    ms.len() == ss.len() && forall|i: int| 0 <= i < ms.len() ==> matcher_fits(ms[i], ss[i])
}

/// A matcher that carries out an expression accepts exactly the label sets
/// the expression accepts.
pub proof fn lemma_fits_match(m: LabelMatcher, s: MatcherSpec, labels: Seq<LabelV>)
    requires
        matcher_fits(m, s),
    ensures
        m.spec_matches(labels) == spec_matcher_matches(s, labels),
{
    match s {
        MatcherSpec::Equal { name, value } => {},
        MatcherSpec::NotEqual { name, value } => {},
        MatcherSpec::Regex { name, pattern } => {
            let rm = m->Regex_0;
            if rm.spec_matches(labels) {
                let i = choose|i: int|
                    0 <= i < labels.len() && labels[i].0 == rm.name@ && regex_match(
                        rm.pattern,
                        labels[i].1,
                    );
                assert(regex_accepts(anchored(pattern), labels[i].1));
            }
            if spec_matcher_matches(s, labels) {
                let i = choose|i: int|
                    0 <= i < labels.len() && labels[i].0 == name && regex_accepts(
                        anchored(pattern),
                        labels[i].1,
                    );
                assert(regex_match(rm.pattern, labels[i].1));
            }
        },
        MatcherSpec::NotRegex { name, pattern } => {
            let rm = m->NotRegex_0;
            if !rm.spec_matches(labels) {
                let i = choose|i: int|
                    0 <= i < labels.len() && labels[i].0 == rm.name@ && regex_match(
                        rm.pattern,
                        labels[i].1,
                    );
                assert(regex_accepts(anchored(pattern), labels[i].1));
            }
            if !spec_matcher_matches(s, labels) {
                let i = choose|i: int|
                    0 <= i < labels.len() && labels[i].0 == name && regex_accepts(
                        anchored(pattern),
                        labels[i].1,
                    );
                assert(regex_match(rm.pattern, labels[i].1));
            }
        },
    }
}

/// Matchers that carry out a list of expressions accept exactly the label
/// sets the expressions all accept.
pub proof fn lemma_fits_all(ms: Seq<LabelMatcher>, ss: Seq<MatcherSpec>, labels: Seq<LabelV>)
    requires
        matchers_fit(ms, ss),
    ensures
        matches_all(ms, labels) == spec_all_match(ss, labels),
{
    assert forall|i: int| 0 <= i < ms.len() implies ms[i].spec_matches(labels)
        == spec_matcher_matches(ss[i], labels) by {
        lemma_fits_match(ms[i], ss[i], labels);
    }
}

/// The first index of `c` in `s`.
pub open spec fn find_char(s: Seq<char>, c: char) -> Option<int>
    decreases s.len(),
{
    if s.len() == 0 {
        None
    } else if s[0] == c {
        Some(0)
    } else {
        match find_char(s.drop_first(), c) {
            Some(i) => Some(i + 1),
            None => None,
        }
    }
}

/// Where a scan for `c` stops at `i`, `find_char` agrees.
proof fn lemma_find_char_at(s: Seq<char>, c: char, i: int)
    requires
        0 <= i <= s.len(),
        forall|k: int| 0 <= k < i ==> s[k] != c,
        i < s.len() ==> s[i] == c,
    ensures
        i < s.len() ==> find_char(s, c) == Some(i),
        i == s.len() ==> find_char(s, c) is None,
    decreases i,
{
    if i > 0 {
        lemma_find_char_at(s.drop_first(), c, i - 1);
    }
}

/// The first index where the two characters `c0`, `c1` stand side by side.
pub open spec fn find_pair(s: Seq<char>, c0: char, c1: char) -> Option<int>
    decreases s.len(),
{
    if s.len() < 2 {
        None
    } else if s[0] == c0 && s[1] == c1 {
        Some(0)
    } else {
        match find_pair(s.drop_first(), c0, c1) {
            Some(i) => Some(i + 1),
            None => None,
        }
    }
}

/// Where a scan for the pair stops at `i`, `find_pair` agrees.
proof fn lemma_find_pair_at(s: Seq<char>, c0: char, c1: char, i: int)
    requires
        s.len() >= 1,
        0 <= i <= s.len() - 1,
        forall|k: int| 0 <= k < i ==> !((#[trigger] s[k]) == c0 && s[k + 1] == c1),
        i < s.len() - 1 ==> s[i] == c0 && s[i + 1] == c1,
    ensures
        i < s.len() - 1 ==> find_pair(s, c0, c1) == Some(i),
        i == s.len() - 1 ==> find_pair(s, c0, c1) is None,
    decreases i,
{
    if i == 0 {
    } else {
        assert(!(s[0] == c0 && s[1] == c1));
        lemma_find_pair_at(s.drop_first(), c0, c1, i - 1);
    }
}

/// Find the first occurrence of `c` in `v`.
fn find_char_vec(v: &Vec<char>, c: char) -> (r: Option<usize>)
    ensures
        match find_char(v@, c) {
            Some(i) => r matches Some(j) && j == i && i < v@.len(),
            None => r is None,
        },
{
    let mut i: usize = 0;
    while i < v.len()
        invariant
            i <= v@.len(),
            forall|k: int| 0 <= k < i ==> v@[k] != c,
        decreases v@.len() - i,
    {
        if v[i] == c {
            proof {
                lemma_find_char_at(v@, c, i as int);
            }
            return Some(i);
        }
        i += 1;
    }
    proof {
        lemma_find_char_at(v@, c, v@.len() as int);
    }
    None
}

/// Find the first index where `c0` and `c1` stand side by side in `v`.
fn find_pair_vec(v: &Vec<char>, c0: char, c1: char) -> (r: Option<usize>)
    ensures
        match find_pair(v@, c0, c1) {
            Some(i) => r matches Some(j) && j == i && i + 2 <= v@.len(),
            None => r is None,
        },
{
    if v.len() < 2 {
        return None;
    }
    let mut i: usize = 0;
    while i < v.len() - 1
        invariant
            v@.len() >= 2,
            i <= v@.len() - 1,
            forall|k: int| 0 <= k < i ==> !((#[trigger] v@[k]) == c0 && v@[k + 1] == c1),
        decreases v@.len() - i,
    {
        if v[i] == c0 && v[i + 1] == c1 {
            proof {
                lemma_find_pair_at(v@, c0, c1, i as int);
            }
            return Some(i);
        }
        i += 1;
    }
    proof {
        lemma_find_pair_at(v@, c0, c1, (v@.len() - 1) as int);
    }
    None
}

/// The value of a quoted string: the text inside the quotes, once the
/// expression is trimmed. Escapes are kept as they stand; only the outer
/// quotes go.
pub open spec fn parse_quoted(s: Seq<char>) -> Option<Seq<char>> {
    let t = trim(s);
    if t.len() >= 2 && t[0] == '"' && t.last() == '"' {
        Some(t.subrange(1, t.len() - 1))
    } else {
        None
    }
}

/// The label expressions of a label block's interior, split on top-level
/// commas: a comma inside quotes does not split, a backslash escapes the
/// character after it, and each piece is trimmed. A piece between two commas
/// is kept even when empty; an empty piece at the end is dropped.
pub open spec fn split_rest(
    s: Seq<char>,
    i: int,
    in_q: bool,
    esc: bool,
    cur: Seq<char>,
    parts: Seq<Seq<char>>,
) -> Seq<Seq<char>>
    decreases s.len() - i,
{
    if i < 0 || i >= s.len() {
        if trim(cur).len() > 0 {
            parts.push(trim(cur))
        } else {
            parts
        }
    } else {
        let c = s[i];
        if esc {
            split_rest(s, i + 1, in_q, false, cur.push(c), parts)
        } else if c == '\\' {
            split_rest(s, i + 1, in_q, true, cur.push(c), parts)
        } else if c == '"' {
            split_rest(s, i + 1, !in_q, false, cur.push(c), parts)
        } else if c == ',' && !in_q {
            split_rest(s, i + 1, in_q, false, Seq::empty(), parts.push(trim(cur)))
        } else {
            split_rest(s, i + 1, in_q, false, cur.push(c), parts)
        }
    }
}

/// The label expressions of a label block's interior.
pub open spec fn split_exprs(s: Seq<char>) -> Seq<Seq<char>> {
    split_rest(s, 0, false, false, Seq::empty(), Seq::empty())
}

/// What one label expression means, or why it is rejected: the operator is
/// the first literal occurrence of `!=`, `!~`, `=~` or `=`, searched in that
/// order; the value must be quoted; a regex pattern must compile in its
/// anchored, whole-value form.
pub open spec fn parse_matcher_spec(e0: Seq<char>) -> Result<MatcherSpec, ParseError> {
    let e = trim(e0);
    match find_pair(e, '!', '=') {
        Some(p) => match parse_quoted(e.skip(p + 2)) {
            Some(v) => Ok(MatcherSpec::NotEqual { name: trim(e.take(p)), value: v }),
            None => Err(ParseError::ExpectedQuotedValue),
        },
        None => match find_pair(e, '!', '~') {
            Some(p) => match parse_quoted(e.skip(p + 2)) {
                Some(pat) => if regex_compiles(anchored(pat)) {
                    Ok(MatcherSpec::NotRegex { name: trim(e.take(p)), pattern: pat })
                } else {
                    Err(ParseError::InvalidRegex)
                },
                None => Err(ParseError::ExpectedQuotedValue),
            },
            None => match find_pair(e, '=', '~') {
                Some(p) => match parse_quoted(e.skip(p + 2)) {
                    Some(pat) => if regex_compiles(anchored(pat)) {
                        Ok(MatcherSpec::Regex { name: trim(e.take(p)), pattern: pat })
                    } else {
                        Err(ParseError::InvalidRegex)
                    },
                    None => Err(ParseError::ExpectedQuotedValue),
                },
                None => match find_char(e, '=') {
                    Some(p) => match parse_quoted(e.skip(p + 1)) {
                        Some(v) => Ok(MatcherSpec::Equal { name: trim(e.take(p)), value: v }),
                        None => Err(ParseError::ExpectedQuotedValue),
                    },
                    None => Err(ParseError::InvalidLabelMatcher),
                },
            },
        },
    }
}

/// What a list of label expressions means: each in turn, stopping at the
/// first rejection.
pub open spec fn parse_parts(parts: Seq<Seq<char>>) -> Result<Seq<MatcherSpec>, ParseError>
    decreases parts.len(),
{
    if parts.len() == 0 {
        Ok(Seq::<MatcherSpec>::empty())
    } else {
        match parse_matcher_spec(parts[0]) {
            Err(e) => Err(e),
            Ok(m) => match parse_parts(parts.drop_first()) {
                Err(e) => Err(e),
                Ok(ms) => Ok(seq![m] + ms),
            },
        }
    }
}

/// Where the first `i` expressions parse, the list's outcome is decided by
/// what follows them.
proof fn lemma_parse_parts_prefix(parts: Seq<Seq<char>>, i: int)
    requires
        0 <= i <= parts.len(),
        forall|k: int| 0 <= k < i ==> (#[trigger] parse_matcher_spec(parts[k])) is Ok,
    ensures
        (i < parts.len() && parse_matcher_spec(parts[i]) is Err) ==> parse_parts(parts)
            == Err::<Seq<MatcherSpec>, ParseError>(parse_matcher_spec(parts[i])->Err_0),
        i == parts.len() ==> parse_parts(parts) is Ok && parse_parts(parts)->Ok_0.len()
            == parts.len() && forall|k: int|
            0 <= k < parts.len() ==> parse_parts(parts)->Ok_0[k] == parse_matcher_spec(
                parts[k],
            )->Ok_0,
    decreases parts.len(),
{
    if parts.len() == 0 {
    } else if i == 0 {
        if parse_matcher_spec(parts[0]) is Err {
        } else if parts.len() > 0 {
        }
    } else {
        assert(parse_matcher_spec(parts[0]) is Ok);
        let t = parts.drop_first();
        lemma_parse_parts_prefix(t, i - 1);
        assert(forall|k: int| 0 <= k < t.len() ==> t[k] == parts[k + 1]);
        if i < parts.len() && parse_matcher_spec(parts[i]) is Err {
            assert(t[i - 1] == parts[i]);
        } else if i == parts.len() {
            let ms = parse_parts(t)->Ok_0;
            assert(parse_parts(parts) == Ok::<Seq<MatcherSpec>, ParseError>(
                seq![parse_matcher_spec(parts[0])->Ok_0] + ms,
            ));
            assert forall|k: int| 0 <= k < parts.len() implies parse_parts(parts)->Ok_0[k]
                == parse_matcher_spec(parts[k])->Ok_0 by {
                if k > 0 {
                    assert(parse_parts(parts)->Ok_0[k] == ms[k - 1]);
                    assert(t[k - 1] == parts[k]);
                }
            }
        }
    }
}

/// What a label block means, or why it is rejected: it must be wrapped in
/// braces; an interior of only whitespace means no matchers; otherwise the
/// interior splits into expressions, each parsed in turn.
pub open spec fn parse_matchers_spec(ls0: Seq<char>) -> Result<Seq<MatcherSpec>, ParseError> {
    let ls = trim(ls0);
    if ls.len() == 0 || ls[0] != '{' || ls.last() != '}' {
        Err(ParseError::InvalidLabelSyntax)
    } else {
        let inner = ls.subrange(1, ls.len() - 1);
        if trim(inner).len() == 0 {
            Ok(Seq::<MatcherSpec>::empty())
        } else {
            parse_parts(split_exprs(inner))
        }
    }
}

/// What a whole selector means, or why it is rejected: the text before the
/// first `{` is the metric name — if non-empty it becomes an equality
/// matcher on `__name__` — and what follows is the label block.
pub open spec fn parse_selector_spec(q0: Seq<char>) -> Result<Seq<MatcherSpec>, ParseError> {
    let q = trim(q0);
    match find_char(q, '{') {
        None => if q.len() > 0 {
            Ok(seq![MatcherSpec::Equal { name: "__name__"@, value: q }])
        } else {
            Ok(Seq::<MatcherSpec>::empty())
        },
        Some(b) => {
            let name = trim(q.take(b));
            match parse_matchers_spec(q.skip(b)) {
                Err(e) => Err(e),
                Ok(ms) => Ok(
                    if name.len() > 0 {
                        seq![MatcherSpec::Equal { name: "__name__"@, value: name }] + ms
                    } else {
                        ms
                    },
                ),
            }
        },
    }
}

/// A parsed selector: the matchers a query will run, in order.
#[derive(Debug)]
pub struct MetricSelector {
    pub matchers: Vec<LabelMatcher>,
}

/// One matched series of a query result.
#[derive(Debug)]
pub struct QueryResultSeries {
    pub labels: Vec<Label>,
    pub samples: Vec<Sample>,
}

/// A query result: the matched series, each trimmed to the queried range.
#[derive(Debug)]
pub struct QueryResult {
    pub series: Vec<QueryResultSeries>,
}

/// The content of one result series.
pub open spec fn qrs_view(s: QueryResultSeries) -> SeriesV {
    (labels_view(s.labels@), s.samples@)
}

/// The content of a query result, in order.
pub open spec fn result_view(qr: QueryResult) -> Seq<SeriesV> {
    qr.series@.map_values(|s: QueryResultSeries| qrs_view(s))
}

/// Whether all parsed expressions accept a series' labels.
pub open spec fn match_pred(ss: Seq<MatcherSpec>) -> spec_fn(SeriesV) -> bool {
    |sv: SeriesV| spec_all_match(ss, sv.0)
}

/// A series cut down to the samples inside `[start, end]`.
pub open spec fn project_range(start: i64, end: i64) -> spec_fn(SeriesV) -> SeriesV {
    |sv: SeriesV| (sv.0, in_range(sv.1, start, end))
}

/// Whether a series kept any samples.
pub open spec fn nonempty_series() -> spec_fn(SeriesV) -> bool {
    |sv: SeriesV| sv.1.len() > 0
}

/// What a query returns on a store: the series all matchers accept, each cut
/// to the inclusive range, those left empty dropped.
pub open spec fn query_spec(
    m: Seq<SeriesV>,
    ss: Seq<MatcherSpec>,
    start: i64,
    end: i64,
) -> Seq<SeriesV> {
    m.filter(match_pred(ss)).map_values(project_range(start, end)).filter(nonempty_series())
}

/// Simple query engine over the in-memory store, for selectors such as
/// `metric{a="b",c!="d",e=~"regex"}`.
pub struct SimpleQueryEngine {
    pub storage: MemoryStorage,
}

impl SimpleQueryEngine {
    /// Create a new query engine over the given storage.
    pub fn new(storage: MemoryStorage) -> (r: SimpleQueryEngine)
        ensures
            r.storage == storage,
    {
        SimpleQueryEngine { storage }
    }

    /// Strip the quotes from a quoted value; a value not wrapped in quotes is
    /// rejected.
    pub fn parse_quoted_value(input: &str) -> (r: Result<String, ParseError>)
        ensures
            match parse_quoted(input@) {
                Some(val) => r matches Ok(s) && s@ == val,
                None => r == Err::<String, ParseError>(ParseError::ExpectedQuotedValue),
            },
    {
        let v = chars_vec(input);
        Self::parse_quoted_chars(&v)
    }

    /// Strip the quotes from a quoted value given as characters.
    fn parse_quoted_chars(v: &Vec<char>) -> (r: Result<String, ParseError>)
        ensures
            match parse_quoted(v@) {
                Some(val) => r matches Ok(s) && s@ == val,
                None => r == Err::<String, ParseError>(ParseError::ExpectedQuotedValue),
            },
    {
        let t = trim_chars(v);
        if t.len() >= 2 && t[0] == '"' && t[t.len() - 1] == '"' {
            let inner = subvec(&t, 1, t.len() - 1);
            Ok(string_from_chars(&inner))
        } else {
            Err(ParseError::ExpectedQuotedValue)
        }
    }

    /// Split a label block's interior on top-level commas, trimming each
    /// piece and honouring quotes and backslash escapes.
    pub fn split_label_expressions(input: &str) -> (r: Vec<String>)
        ensures
            str_views(r@) == split_exprs(input@),
    {
        let v = chars_vec(input);
        Self::split_exprs_chars(&v)
    }

    /// Split an interior given as characters.
    fn split_exprs_chars(s: &Vec<char>) -> (r: Vec<String>)
        ensures
            str_views(r@) == split_exprs(s@),
    {
        let mut parts: Vec<String> = Vec::new();
        let mut cur: Vec<char> = Vec::new();
        let mut in_q = false;
        let mut esc = false;
        let mut i: usize = 0;
        proof {
            assert(str_views(parts@) =~= Seq::<Seq<char>>::empty());
            assert(cur@ =~= Seq::<char>::empty());
        }
        while i < s.len()
            invariant
                i <= s@.len(),
                split_rest(s@, i as int, in_q, esc, cur@, str_views(parts@)) == split_exprs(s@),
            decreases s@.len() - i,
        {
            let c = s[i];
            if esc {
                cur.push(c);
                esc = false;
            } else if c == '\\' {
                cur.push(c);
                esc = true;
            } else if c == '"' {
                cur.push(c);
                in_q = !in_q;
            } else if c == ',' && !in_q {
                let trimmed = trim_chars(&cur);
                let piece = string_from_chars(&trimmed);
                let ghost old_parts = str_views(parts@);
                parts.push(piece);
                proof {
                    assert(str_views(parts@) =~= old_parts.push(trim(cur@)));
                }
                cur = Vec::new();
                proof {
                    assert(cur@ =~= Seq::<char>::empty());
                }
            } else {
                cur.push(c);
            }
            i += 1;
        }
        let trimmed = trim_chars(&cur);
        if trimmed.len() > 0 {
            let piece = string_from_chars(&trimmed);
            let ghost old_parts = str_views(parts@);
            parts.push(piece);
            proof {
                assert(str_views(parts@) =~= old_parts.push(trim(cur@)));
            }
        }
        parts
    }

    /// Parse a single label expression, such as `a="b"`, `c!="d"` or
    /// `e=~"regex"`, into the matcher that carries it out.
    pub fn parse_single_label_matcher(expr: &str) -> (r: Result<LabelMatcher, ParseError>)
        ensures
            (r is Ok) == (parse_matcher_spec(expr@) is Ok),
            r matches Ok(m) ==> parse_matcher_spec(expr@) matches Ok(sm) && matcher_fits(m, sm),
            r matches Err(e) ==> parse_matcher_spec(expr@) == Err::<MatcherSpec, ParseError>(e),
    {
        let v = chars_vec(expr);
        let t = trim_chars(&v);
        if let Some(p) = find_pair_vec(&t, '!', '=') {
            let name_chars = trim_chars(&subvec(&t, 0, p));
            let name = string_from_chars(&name_chars);
            let n = t.len();
            let rest = subvec(&t, p + 2, n);
            proof {
                assert(rest@ =~= t@.skip(p + 2));
                assert(name_chars@ =~= trim(t@.take(p as int)));
            }
            return match Self::parse_quoted_chars(&rest) {
                Ok(value) => Ok(LabelMatcher::NotEqual(NotEqualMatcher { name, value })),
                Err(e) => Err(e),
            };
        }
        if let Some(p) = find_pair_vec(&t, '!', '~') {
            let name_chars = trim_chars(&subvec(&t, 0, p));
            let name = string_from_chars(&name_chars);
            let n = t.len();
            let rest = subvec(&t, p + 2, n);
            proof {
                assert(rest@ =~= t@.skip(p + 2));
                assert(name_chars@ =~= trim(t@.take(p as int)));
            }
            return match Self::parse_quoted_chars(&rest) {
                Ok(pattern_str) => {
                    let whole = anchor_pattern(pattern_str.as_str());
                    match regex_compile(whole.as_str()) {
                        Some(pattern) => Ok(
                            LabelMatcher::NotRegex(NotRegexMatcher { name, pattern }),
                        ),
                        None => Err(ParseError::InvalidRegex),
                    }
                },
                Err(e) => Err(e),
            };
        }
        if let Some(p) = find_pair_vec(&t, '=', '~') {
            let name_chars = trim_chars(&subvec(&t, 0, p));
            let name = string_from_chars(&name_chars);
            let n = t.len();
            let rest = subvec(&t, p + 2, n);
            proof {
                assert(rest@ =~= t@.skip(p + 2));
                assert(name_chars@ =~= trim(t@.take(p as int)));
            }
            return match Self::parse_quoted_chars(&rest) {
                Ok(pattern_str) => {
                    let whole = anchor_pattern(pattern_str.as_str());
                    match regex_compile(whole.as_str()) {
                        Some(pattern) => Ok(LabelMatcher::Regex(RegexMatcher { name, pattern })),
                        None => Err(ParseError::InvalidRegex),
                    }
                },
                Err(e) => Err(e),
            };
        }
        if let Some(p) = find_char_vec(&t, '=') {
            let name_chars = trim_chars(&subvec(&t, 0, p));
            let name = string_from_chars(&name_chars);
            let n = t.len();
            let rest = subvec(&t, p + 1, n);
            proof {
                assert(rest@ =~= t@.skip(p + 1));
                assert(name_chars@ =~= trim(t@.take(p as int)));
            }
            return match Self::parse_quoted_chars(&rest) {
                Ok(value) => Ok(LabelMatcher::Equal(EqualMatcher { name, value })),
                Err(e) => Err(e),
            };
        }
        Err(ParseError::InvalidLabelMatcher)
    }

    /// Parse a label block such as `{a="b",c!="d"}` into its matchers.
    pub fn parse_label_matchers(labels_str: &str) -> (r: Result<Vec<LabelMatcher>, ParseError>)
        ensures
            (r is Ok) == (parse_matchers_spec(labels_str@) is Ok),
            r matches Ok(ms) ==> parse_matchers_spec(labels_str@) matches Ok(ss) && matchers_fit(
                ms@,
                ss,
            ),
            r matches Err(e) ==> parse_matchers_spec(labels_str@) == Err::<
                Seq<MatcherSpec>,
                ParseError,
            >(e),
    {
        let v = chars_vec(labels_str);
        let t = trim_chars(&v);
        if t.len() == 0 || t[0] != '{' || t[t.len() - 1] != '}' {
            return Err(ParseError::InvalidLabelSyntax);
        }
        proof {
            if t@.len() == 1 {
                assert(t@[0] == '{' && t@[0] == '}');
                assert(false);
            }
        }
        let inner = subvec(&t, 1, t.len() - 1);
        proof {
            assert(inner@ =~= trim(labels_str@).subrange(1, trim(labels_str@).len() - 1));
        }
        let inner_trimmed = trim_chars(&inner);
        if inner_trimmed.len() == 0 {
            let empty_ms: Vec<LabelMatcher> = Vec::new();
            proof {
                assert(matchers_fit(empty_ms@, Seq::<MatcherSpec>::empty()));
            }
            return Ok(empty_ms);
        }
        let parts = Self::split_exprs_chars(&inner);
        let ghost sparts = split_exprs(inner@);
        proof {
            assert(parse_matchers_spec(labels_str@) == parse_parts(sparts));
        }
        let mut ms: Vec<LabelMatcher> = Vec::new();
        let mut i: usize = 0;
        while i < parts.len()
            invariant
                i <= parts@.len(),
                str_views(parts@) == sparts,
                parse_matchers_spec(labels_str@) == parse_parts(sparts),
                ms@.len() == i,
                forall|k: int| 0 <= k < i ==> (#[trigger] parse_matcher_spec(sparts[k])) is Ok,
                forall|k: int|
                    0 <= k < i ==> matcher_fits(ms@[k], parse_matcher_spec(sparts[k])->Ok_0),
            decreases parts@.len() - i,
        {
            proof {
                assert(parts@[i as int]@ == sparts[i as int]);
            }
            match Self::parse_single_label_matcher(parts[i].as_str()) {
                Err(e) => {
                    proof {
                        lemma_parse_parts_prefix(sparts, i as int);
                    }
                    return Err(e);
                },
                Ok(m) => {
                    ms.push(m);
                },
            }
            i += 1;
        }
        proof {
            lemma_parse_parts_prefix(sparts, sparts.len() as int);
            let ss = parse_parts(sparts)->Ok_0;
            assert(parse_matchers_spec(labels_str@) == parse_parts(sparts));
            assert(ms@.len() == ss.len());
            assert forall|k: int| 0 <= k < ms@.len() implies matcher_fits(ms@[k], ss[k]) by {
                assert(matcher_fits(ms@[k], parse_matcher_spec(sparts[k])->Ok_0));
            }
            assert(matchers_fit(ms@, ss));
        }
        Ok(ms)
    }

    /// Parse a selector such as `metric{a="b"}` into its matchers: the
    /// metric name, if present, becomes an equality matcher on `__name__`.
    pub fn parse_selector(query: &str) -> (r: Result<MetricSelector, ParseError>)
        ensures
            (r is Ok) == (parse_selector_spec(query@) is Ok),
            r matches Ok(sel) ==> parse_selector_spec(query@) matches Ok(ss) && matchers_fit(
                sel.matchers@,
                ss,
            ),
            r matches Err(e) ==> parse_selector_spec(query@) == Err::<
                Seq<MatcherSpec>,
                ParseError,
            >(e),
    {
        let v = chars_vec(query);
        let q = trim_chars(&v);
        match find_char_vec(&q, '{') {
            None => {
                let mut matchers: Vec<LabelMatcher> = Vec::new();
                if q.len() > 0 {
                    let name = string_from_chars(&q);
                    matchers.push(
                        LabelMatcher::Equal(EqualMatcher::new("__name__", name.as_str())),
                    );
                }
                Ok(MetricSelector { matchers })
            },
            Some(b) => {
                let name_chars = trim_chars(&subvec(&q, 0, b));
                let rest = subvec(&q, b, q.len());
                proof {
                    assert(rest@ =~= trim(query@).skip(b as int));
                    assert(name_chars@ =~= trim(trim(query@).take(b as int)));
                }
                let rest_str = string_from_chars(&rest);
                match Self::parse_label_matchers(rest_str.as_str()) {
                    Err(e) => Err(e),
                    Ok(mut lms) => {
                        let ghost ss = parse_matchers_spec(rest@)->Ok_0;
                        let ghost lms0 = lms@;
                        let mut matchers: Vec<LabelMatcher> = Vec::new();
                        if name_chars.len() > 0 {
                            let name = string_from_chars(&name_chars);
                            matchers.push(
                                LabelMatcher::Equal(EqualMatcher::new("__name__", name.as_str())),
                            );
                        }
                        let ghost head = matchers@;
                        matchers.append(&mut lms);
                        proof {
                            assert(matchers@ =~= head + lms0);
                            let full = parse_selector_spec(query@)->Ok_0;
                            assert(matchers@.len() == full.len());
                            assert forall|k: int| 0 <= k < matchers@.len() implies matcher_fits(
                                matchers@[k],
                                full[k],
                            ) by {
                                if name_chars@.len() > 0 {
                                    if k > 0 {
                                        assert(matchers@[k] == lms0[k - 1]);
                                        assert(full[k] == ss[k - 1]);
                                    }
                                } else {
                                    assert(matchers@[k] == lms0[k]);
                                    assert(full[k] == ss[k]);
                                }
                            }
                            assert(matchers_fit(matchers@, full));
                        }
                        Ok(MetricSelector { matchers })
                    },
                }
            },
        }
    }

    /// Parse and run a selector over the inclusive time range: every stored
    /// series all matchers accept is cut to the range, and those left with no
    /// samples are dropped. A selector the grammar rejects is the query's
    /// one error.
    pub fn query(&self, query: &str, start: i64, end: i64) -> (r: Result<QueryResult, ParseError>)
        ensures
            (r is Ok) == (parse_selector_spec(query@) is Ok),
            r matches Err(e) ==> parse_selector_spec(query@) == Err::<
                Seq<MatcherSpec>,
                ParseError,
            >(e),
            r matches Ok(qr) ==> parse_selector_spec(query@) matches Ok(ss) && result_view(qr)
                == query_spec(self.storage.model(), ss, start, end),
    {
        let sel = match Self::parse_selector(query) {
            Err(e) => {
                return Err(e);
            },
            Ok(sel) => sel,
        };
        let ghost ss = parse_selector_spec(query@)->Ok_0;
        let series = self.storage.query_series(sel.matchers.as_slice());
        proof {
            assert forall|sv: SeriesV| #[trigger]
                crate::storage::accepted_by(sel.matchers@)(sv) == match_pred(ss)(sv) by {
                lemma_fits_all(sel.matchers@, ss, sv.0);
            }
            assert(crate::storage::accepted_by(sel.matchers@) =~= match_pred(ss));
            assert(store_view(series@) == self.storage.model().filter(match_pred(ss)));
        }
        let ghost fs = store_view(series@);
        let mut out: Vec<QueryResultSeries> = Vec::new();
        let mut i: usize = 0;
        proof {
            assert(out@.map_values(|s: QueryResultSeries| qrs_view(s)) =~= fs.take(0).map_values(
                project_range(start, end),
            ).filter(nonempty_series()));
        }
        while i < series.len()
            invariant
                i <= series@.len(),
                fs == store_view(series@),
                out@.map_values(|s: QueryResultSeries| qrs_view(s)) == fs.take(
                    i as int,
                ).map_values(project_range(start, end)).filter(nonempty_series()),
            decreases series@.len() - i,
        {
            proof {
                fs.lemma_take_succ_push(i as int);
                assert(fs.take((i + 1) as int).map_values(project_range(start, end)) =~= fs.take(
                    i as int,
                ).map_values(project_range(start, end)).push(project_range(start, end)(
                    fs[i as int],
                )));
                fs.take(i as int).map_values(project_range(start, end)).lemma_filter_push(
                    project_range(start, end)(fs[i as int]),
                    nonempty_series(),
                );
            }
            let samples = series[i].samples_in_range(start, end);
            if samples.len() > 0 {
                let copied = series[i].clone();
                let ghost old_out = out@;
                out.push(QueryResultSeries { labels: copied.labels, samples });
                proof {
                    assert(qrs_view(out@[old_out.len() as int]) == project_range(start, end)(
                        fs[i as int],
                    ));
                    assert(out@.map_values(|s: QueryResultSeries| qrs_view(s)) =~= old_out
                        .map_values(|s: QueryResultSeries| qrs_view(s)).push(
                        project_range(start, end)(fs[i as int]),
                    ));
                }
            }
            i += 1;
        }
        proof {
            assert(fs.take(fs.len() as int) =~= fs);
        }
        Ok(QueryResult { series: out })
    }
}

} // verus!
