//! Label matchers: a closed set of predicates over a label set.
//!
//! Four kinds exist: equal, not-equal, regex and not-regex, each bound to one
//! label name. The positive kinds match when *any* occurrence of the name
//! satisfies the condition; the negated kinds fail when *any* occurrence
//! satisfies the negated condition, so they are not simply the complement of
//! the positive kinds when a name occurs more than once.

use vstd::prelude::*;
use vstd::string::StringExecFns;

use crate::storage::{Label, LabelV, labels_view};
use crate::strutil::{chars_vec, string_from_chars};

verus! {

/// The declared shape of `regex::Regex`, so regex values can sit in matcher
/// fields. The value is opaque; what it accepts is named below.
#[verifier::external_type_specification]
#[verifier::external_body]
pub struct ExRegex(regex::Regex);

/// Whether `regex::Regex::new` accepts a pattern: a function of the pattern
/// text alone.
pub uninterp spec fn regex_compiles(pattern: Seq<char>) -> bool;

/// What `regex::Regex::is_match` answers for a pattern text and a haystack:
/// a function of the two texts alone.
pub uninterp spec fn regex_accepts(pattern: Seq<char>, text: Seq<char>) -> bool;

/// What `regex::Regex::is_match` answers for a compiled regex value and a
/// haystack: a function of the regex value and the haystack alone.
pub uninterp spec fn regex_match(re: regex::Regex, text: Seq<char>) -> bool;

/// Relies on `regex::Regex::new`: whether compilation succeeds depends on the
/// pattern text alone, and the compiled regex answers `is_match` by that
/// pattern text alone.
#[verifier::external_body]
pub fn regex_compile(pattern: &str) -> (r: Option<regex::Regex>)
    ensures
        r is Some <==> regex_compiles(pattern@),
        r matches Some(re) ==> forall|t: Seq<char>|
            #[trigger] regex_match(re, t) == regex_accepts(pattern@, t),
{
    regex::Regex::new(pattern).ok()
}

/// Relies on `regex::Regex::is_match`: whether the regex matches anywhere in
/// the haystack, a deterministic function of the regex and the haystack.
#[verifier::external_body]
pub fn regex_is_match(re: &regex::Regex, text: &str) -> (r: bool)
    ensures
        r == regex_match(*re, text@),
{
    re.is_match(text)
}

/// A pattern anchored to the whole haystack. The selector parser compiles
/// regex operators' patterns in this form, so a label value matches only
/// when all of it matches the written pattern.
pub open spec fn anchored(pattern: Seq<char>) -> Seq<char> {
    seq!['^', '(', '?', ':'] + pattern + seq![')', '$']
}

/// Wrap a pattern so the compiled regex must match the whole haystack.
pub fn anchor_pattern(pattern: &str) -> (r: String)
    ensures
        r@ == anchored(pattern@),
{
    let chars = chars_vec(pattern);
    let mut v: Vec<char> = Vec::new();
    v.push('^');
    v.push('(');
    v.push('?');
    v.push(':');
    let mut i: usize = 0;
    while i < chars.len()
        invariant
            i <= chars@.len(),
            chars@ == pattern@,
            v@ =~= seq!['^', '(', '?', ':'] + chars@.take(i as int),
        decreases chars@.len() - i,
    {
        v.push(chars[i]);
        proof {
            chars@.lemma_take_succ_push(i as int);
        }
        i += 1;
    }
    v.push(')');
    v.push('$');
    proof {
        assert(chars@.take(chars@.len() as int) =~= chars@);
        assert(v@ =~= anchored(pattern@));
    }
    string_from_chars(&v)
}

/// Equality matcher: true iff some label has exactly this name and value.
#[derive(Debug)]
pub struct EqualMatcher {
    pub name: String,
    pub value: String,
}

impl EqualMatcher {
    /// Create a new equality matcher.
    pub fn new(name: &str, value: &str) -> (r: EqualMatcher)
        ensures
            r.name@ == name@,
            r.value@ == value@,
    {
        EqualMatcher { name: String::from_str(name), value: String::from_str(value) }
    }

    /// Some occurrence of the name carries exactly the value.
    pub open spec fn spec_matches(self, labels: Seq<LabelV>) -> bool {
        exists|i: int|
            0 <= i < labels.len() && labels[i].0 == self.name@ && labels[i].1 == self.value@
    }

    /// Check the matcher against a label set.
    pub fn matches(&self, labels: &[Label]) -> (r: bool)
        ensures
            r == self.spec_matches(labels_view(labels@)),
    {
        let mut i: usize = 0;
        while i < labels.len()
            invariant
                i <= labels@.len(),
                forall|k: int| 0 <= k < i ==> !(labels_view(labels@)[k].0 == self.name@
                    && labels_view(labels@)[k].1 == self.value@),
            decreases labels@.len() - i,
        {
            if labels[i].name.eq(&self.name) && labels[i].value.eq(&self.value) {
                proof {
                    assert(labels_view(labels@)[i as int].0 == self.name@);
                    assert(labels_view(labels@)[i as int].1 == self.value@);
                }
                return true;
            }
            i += 1;
        }
        false
    }

    /// The label name this matcher tests.
    pub fn label_name(&self) -> (r: &str)
        ensures
            r@ == self.name@,
    {
        self.name.as_str()
    }
}

/// Not-equality matcher: true iff no label has this name and value.
#[derive(Debug)]
pub struct NotEqualMatcher {
    pub name: String,
    pub value: String,
}

impl NotEqualMatcher {
    /// Create a new not-equality matcher.
    pub fn new(name: &str, value: &str) -> (r: NotEqualMatcher)
        ensures
            r.name@ == name@,
            r.value@ == value@,
    {
        NotEqualMatcher { name: String::from_str(name), value: String::from_str(value) }
    }

    /// No occurrence of the name carries the value; vacuously true when the
    /// name is absent.
    pub open spec fn spec_matches(self, labels: Seq<LabelV>) -> bool {
        !(exists|i: int|
            0 <= i < labels.len() && labels[i].0 == self.name@ && labels[i].1 == self.value@)
    }

    /// Check the matcher against a label set.
    pub fn matches(&self, labels: &[Label]) -> (r: bool)
        ensures
            r == self.spec_matches(labels_view(labels@)),
    {
        let mut i: usize = 0;
        while i < labels.len()
            invariant
                i <= labels@.len(),
                forall|k: int| 0 <= k < i ==> !(labels_view(labels@)[k].0 == self.name@
                    && labels_view(labels@)[k].1 == self.value@),
            decreases labels@.len() - i,
        {
            if labels[i].name.eq(&self.name) && labels[i].value.eq(&self.value) {
                proof {
                    assert(labels_view(labels@)[i as int].0 == self.name@);
                    assert(labels_view(labels@)[i as int].1 == self.value@);
                }
                return false;
            }
            i += 1;
        }
        true
    }

    /// The label name this matcher tests.
    pub fn label_name(&self) -> (r: &str)
        ensures
            r@ == self.name@,
    {
        self.name.as_str()
    }
}

/// Regex matcher: true iff some label with this name has a matching value.
#[derive(Debug)]
pub struct RegexMatcher {
    pub name: String,
    pub pattern: regex::Regex,
}

impl RegexMatcher {
    /// Create a new regex matcher from a compiled pattern.
    pub fn new(name: &str, pattern: regex::Regex) -> (r: RegexMatcher)
        ensures
            r.name@ == name@,
            r.pattern == pattern,
    {
        RegexMatcher { name: String::from_str(name), pattern }
    }

    /// Some occurrence of the name carries a value the regex matches.
    pub open spec fn spec_matches(self, labels: Seq<LabelV>) -> bool {
        exists|i: int|
            0 <= i < labels.len() && labels[i].0 == self.name@ && regex_match(
                self.pattern,
                labels[i].1,
            )
    }

    /// Check the matcher against a label set.
    pub fn matches(&self, labels: &[Label]) -> (r: bool)
        ensures
            r == self.spec_matches(labels_view(labels@)),
    {
        let mut i: usize = 0;
        while i < labels.len()
            invariant
                i <= labels@.len(),
                forall|k: int| 0 <= k < i ==> !(labels_view(labels@)[k].0 == self.name@
                    && regex_match(self.pattern, labels_view(labels@)[k].1)),
            decreases labels@.len() - i,
        {
            if labels[i].name.eq(&self.name) && regex_is_match(
                &self.pattern,
                labels[i].value.as_str(),
            ) {
                proof {
                    assert(labels_view(labels@)[i as int].0 == self.name@);
                    assert(regex_match(self.pattern, labels_view(labels@)[i as int].1));
                }
                return true;
            }
            i += 1;
        }
        false
    }

    /// The label name this matcher tests.
    pub fn label_name(&self) -> (r: &str)
        ensures
            r@ == self.name@,
    {
        self.name.as_str()
    }
}

/// Not-regex matcher: true iff no label with this name has a matching value.
#[derive(Debug)]
pub struct NotRegexMatcher {
    pub name: String,
    pub pattern: regex::Regex,
}

impl NotRegexMatcher {
    /// Create a new not-regex matcher from a compiled pattern.
    pub fn new(name: &str, pattern: regex::Regex) -> (r: NotRegexMatcher)
        ensures
            r.name@ == name@,
            r.pattern == pattern,
    {
        NotRegexMatcher { name: String::from_str(name), pattern }
    }

    /// No occurrence of the name carries a value the regex matches.
    pub open spec fn spec_matches(self, labels: Seq<LabelV>) -> bool {
        !(exists|i: int|
            0 <= i < labels.len() && labels[i].0 == self.name@ && regex_match(
                self.pattern,
                labels[i].1,
            ))
    }

    /// Check the matcher against a label set.
    pub fn matches(&self, labels: &[Label]) -> (r: bool)
        ensures
            r == self.spec_matches(labels_view(labels@)),
    {
        let mut i: usize = 0;
        while i < labels.len()
            invariant
                i <= labels@.len(),
                forall|k: int| 0 <= k < i ==> !(labels_view(labels@)[k].0 == self.name@
                    && regex_match(self.pattern, labels_view(labels@)[k].1)),
            decreases labels@.len() - i,
        {
            if labels[i].name.eq(&self.name) && regex_is_match(
                &self.pattern,
                labels[i].value.as_str(),
            ) {
                proof {
                    assert(labels_view(labels@)[i as int].0 == self.name@);
                    assert(regex_match(self.pattern, labels_view(labels@)[i as int].1));
                }
                return false;
            }
            i += 1;
        }
        true
    }

    /// The label name this matcher tests.
    pub fn label_name(&self) -> (r: &str)
        ensures
            r@ == self.name@,
    {
        self.name.as_str()
    }
}

/// One label matcher of any of the four kinds.
#[derive(Debug)]
pub enum LabelMatcher {
    Equal(EqualMatcher),
    NotEqual(NotEqualMatcher),
    Regex(RegexMatcher),
    NotRegex(NotRegexMatcher),
}

impl LabelMatcher {
    /// Whether this matcher accepts the label set.
    pub open spec fn spec_matches(self, labels: Seq<LabelV>) -> bool {
        match self {
            LabelMatcher::Equal(m) => m.spec_matches(labels),
            LabelMatcher::NotEqual(m) => m.spec_matches(labels),
            LabelMatcher::Regex(m) => m.spec_matches(labels),
            LabelMatcher::NotRegex(m) => m.spec_matches(labels),
        }
    }

    /// The label name this matcher tests.
    pub open spec fn spec_label_name(self) -> Seq<char> {
        match self {
            LabelMatcher::Equal(m) => m.name@,
            LabelMatcher::NotEqual(m) => m.name@,
            LabelMatcher::Regex(m) => m.name@,
            LabelMatcher::NotRegex(m) => m.name@,
        }
    }

    /// Check the matcher against a label set.
    pub fn matches(&self, labels: &[Label]) -> (r: bool)
        ensures
            r == self.spec_matches(labels_view(labels@)),
    {
        match self {
            LabelMatcher::Equal(m) => m.matches(labels),
            LabelMatcher::NotEqual(m) => m.matches(labels),
            LabelMatcher::Regex(m) => m.matches(labels),
            LabelMatcher::NotRegex(m) => m.matches(labels),
        }
    }

    /// The label name this matcher tests.
    pub fn label_name(&self) -> (r: &str)
        ensures
            r@ == self.spec_label_name(),
    {
        match self {
            LabelMatcher::Equal(m) => m.label_name(),
            LabelMatcher::NotEqual(m) => m.label_name(),
            LabelMatcher::Regex(m) => m.label_name(),
            LabelMatcher::NotRegex(m) => m.label_name(),
        }
    }
}

/// All matchers accept the label set; vacuously true of no matchers.
pub open spec fn matches_all(ms: Seq<LabelMatcher>, labels: Seq<LabelV>) -> bool {
    forall|i: int| 0 <= i < ms.len() ==> ms[i].spec_matches(labels)
}

/// Two equality matchers on one name but different values cannot both accept
/// a label set in which every occurrence of that name carries one same value:
/// contradictory equality matchers exclude single-valued series.
pub proof fn lemma_contradictory_equal_matchers(
    m1: EqualMatcher,
    m2: EqualMatcher,
    labels: Seq<LabelV>,
    v: Seq<char>,
)
    requires
        m1.name@ == m2.name@,
        m1.value@ != m2.value@,
        forall|i: int| 0 <= i < labels.len() && labels[i].0 == m1.name@ ==> labels[i].1 == v,
    ensures
        !(m1.spec_matches(labels) && m2.spec_matches(labels)),
{
    if m1.spec_matches(labels) && m2.spec_matches(labels) {
        let i = choose|i: int|
            0 <= i < labels.len() && labels[i].0 == m1.name@ && labels[i].1 == m1.value@;
        let j = choose|j: int|
            0 <= j < labels.len() && labels[j].0 == m2.name@ && labels[j].1 == m2.value@;
        assert(labels[i].1 == v);
        assert(labels[j].1 == v);
    }
}

} // verus!
