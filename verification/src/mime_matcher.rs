//! Matching media types against patterns.
//!
//! A pattern is an exact `type/subtype`, a whole type `type/*`, or a
//! structured syntax suffix `*+suffix`. Letter case does not count, and
//! parameters of the media type (`; charset=...`) are left aside.

use crate::text::{
    chars_of, ends_with, find, first_index, has_prefix, has_suffix, is_space, leading_spaces,
    lemma_first_index, lemma_first_index_is, lower, lower_seq, same, starts_with, to_lower_vec,
    trailing_spaces, trim, trimmed,
};
use vstd::prelude::*;
use vstd::slice::slice_subrange;

verus! {

/// The media type proper: `media_type` without its parameters and the white
/// space around it, in lower case.
pub open spec fn essence(media_type: Seq<char>) -> Seq<char> {
    lower_seq(trim(media_type.take(first_index(media_type, ';'))))
}

/// A pattern as the matcher keeps it: trimmed and in lower case.
pub open spec fn normalized(pattern: Seq<char>) -> Seq<char> {
    lower_seq(trim(pattern))
}

/// Whether the pattern has the form `type/*`.
pub open spec fn is_type_pattern(p: Seq<char>) -> bool {
    p.len() >= 2 && p[p.len() - 2] == '/' && p[p.len() - 1] == '*'
}

/// Whether the pattern has the form `*+suffix`.
pub open spec fn is_suffix_pattern(p: Seq<char>) -> bool {
    p.len() >= 2 && p[0] == '*' && p[1] == '+'
}

/// Whether the normalized pattern `p` matches the media type `e`, given
/// without parameters and in lower case.
pub open spec fn pattern_matches(p: Seq<char>, e: Seq<char>) -> bool {
    if is_type_pattern(p) {
        starts_with(e, p.drop_last())
    } else if is_suffix_pattern(p) {
        let i = first_index(e, '/');
        i < e.len() && ends_with(e.skip(i + 1), p.skip(1))
    } else {
        e == p
    }
}

/// Whether one of the normalized `patterns` matches `media_type`.
pub open spec fn any_matches(patterns: Seq<Seq<char>>, media_type: Seq<char>) -> bool {
    exists|i: int|
        0 <= i < patterns.len() && pattern_matches(#[trigger] patterns[i], essence(media_type))
}

/// A set of media type patterns.
#[derive(Debug, Clone, PartialEq, Eq)]
pub struct MimeMatcher {
    /// The patterns, normalized, in the order in which they were added.
    pub patterns: Vec<Vec<char>>,
}

impl MimeMatcher {
    /// The patterns of the matcher.
    pub open spec fn view(&self) -> Seq<Seq<char>> {
        self.patterns@.map_values(|p: Vec<char>| p@)
    }

    /// Whether one of the patterns matches `media_type`.
    pub open spec fn matches_spec(&self, media_type: Seq<char>) -> bool {
        any_matches(self@, media_type)
    }

    /// A matcher without patterns, which matches nothing.
    pub fn new() -> (r: MimeMatcher)
        ensures
            r@ == Seq::<Seq<char>>::empty(),
    {
        let r = MimeMatcher { patterns: Vec::new() };
        assert(r@ =~= Seq::<Seq<char>>::empty());
        r
    }

    /// Adds a pattern.
    pub fn add(&mut self, pattern: &str)
        ensures
            final(self)@ == old(self)@.push(normalized(pattern@)),
    {
        let chars = chars_of(pattern);
        let p = to_lower_vec(trimmed(chars.as_slice()));
        self.patterns.push(p);
        assert(self@ =~= old(self)@.push(normalized(pattern@)));
    }

    /// Whether one of the patterns matches `media_type`.
    pub fn matches(&self, media_type: &str) -> (r: bool)
        ensures
            r == self.matches_spec(media_type@),
    {
        let chars = chars_of(media_type);
        let end = find(chars.as_slice(), ';');
        let head = slice_subrange(chars.as_slice(), 0, end);
        assert(head@ == media_type@.take(end as int));
        let e = to_lower_vec(trimmed(head));
        let mut i: usize = 0;
        while i < self.patterns.len()
            invariant
                i <= self.patterns.len(),
                e@ == essence(media_type@),
                forall|j: int| 0 <= j < i ==> !pattern_matches(#[trigger] self@[j], e@),
            decreases self.patterns.len() - i,
        {
            assert(self@[i as int] == self.patterns@[i as int]@);
            if one_matches(self.patterns[i].as_slice(), e.as_slice()) {
                return true;
            }
            i += 1;
        }
        false
    }
}

/// Executable form of [`pattern_matches`].
fn one_matches(p: &[char], e: &[char]) -> (r: bool)
    ensures
        r == pattern_matches(p@, e@),
{
    if p.len() >= 2 && p[p.len() - 2] == '/' && p[p.len() - 1] == '*' {
        let prefix = slice_subrange(p, 0, p.len() - 1);
        assert(prefix@ == p@.drop_last());
        has_prefix(e, prefix)
    } else if p.len() >= 2 && p[0] == '*' && p[1] == '+' {
        let i = find(e, '/');
        if i < e.len() {
            let subtype = slice_subrange(e, i + 1, e.len());
            let suffix = slice_subrange(p, 1, p.len());
            assert(subtype@ == e@.skip(i + 1));
            assert(suffix@ == p@.skip(1));
            has_suffix(subtype, suffix)
        } else {
            false
        }
    } else {
        same(e, p)
    }
}

/// Parameters do not count: a media type matches with parameters behind it
/// exactly where it matches without them.
pub proof fn lemma_parameters_do_not_count(
    patterns: Seq<Seq<char>>,
    media_type: Seq<char>,
    parameters: Seq<char>,
)
    requires
        !media_type.contains(';'),
    ensures
        any_matches(patterns, media_type + seq![';'] + parameters) == any_matches(
            patterns,
            media_type,
        ),
        essence(media_type + seq![';'] + parameters) == essence(media_type),
{
    let whole = media_type + seq![';'] + parameters;
    let n = media_type.len() as int;
    assert forall|j: int| 0 <= j < n implies media_type[j] != ';' by {
        assert(media_type.contains(media_type[j]));
    }
    lemma_first_index_is(media_type, ';', n);
    assert forall|j: int| 0 <= j < n implies whole[j] != ';' by {
        assert(whole[j] == media_type[j]);
    }
    assert(whole[n] == ';');
    lemma_first_index_is(whole, ';', n);
    assert(whole.take(n) == media_type);
    assert(media_type.take(n) == media_type);
}

/// Lower case keeps white space where it is.
proof fn lemma_lower_keeps_spaces(s: Seq<char>)
    ensures
        leading_spaces(lower_seq(s)) == leading_spaces(s),
        trailing_spaces(lower_seq(s)) == trailing_spaces(s),
    decreases s.len(),
{
    let l = lower_seq(s);
    if s.len() > 0 {
        assert(l[0] == lower(s[0]));
        assert(l.last() == lower(s.last()));
        assert(is_space(lower(s[0])) == is_space(s[0]));
        assert(is_space(lower(s.last())) == is_space(s.last()));
        assert(l.skip(1) == lower_seq(s.skip(1)));
        assert(l.drop_last() == lower_seq(s.drop_last()));
        lemma_lower_keeps_spaces(s.skip(1));
        lemma_lower_keeps_spaces(s.drop_last());
    }
}

/// Lower case keeps a `;` where it is.
proof fn lemma_lower_keeps_semicolon(s: Seq<char>)
    ensures
        first_index(lower_seq(s), ';') == first_index(s, ';'),
    decreases s.len(),
{
    let l = lower_seq(s);
    if s.len() > 0 {
        assert(l[0] == lower(s[0]));
        assert(l.skip(1) == lower_seq(s.skip(1)));
        lemma_lower_keeps_semicolon(s.skip(1));
    }
}

/// Letter case does not count: a media type matches exactly where it
/// matches when written in lower case.
pub proof fn lemma_case_does_not_count(patterns: Seq<Seq<char>>, media_type: Seq<char>)
    ensures
        essence(lower_seq(media_type)) == essence(media_type),
        any_matches(patterns, lower_seq(media_type)) == any_matches(patterns, media_type),
{
    let l = lower_seq(media_type);
    let i = first_index(media_type, ';');
    lemma_lower_keeps_semicolon(media_type);
    lemma_first_index(media_type, ';');
    let head = media_type.take(i);
    assert(l.take(i) == lower_seq(head));
    lemma_lower_keeps_spaces(head);
    let a = leading_spaces(head) as int;
    lemma_leading_spaces_bound(head);
    let rest = head.skip(a);
    assert(lower_seq(head).skip(a) == lower_seq(rest));
    lemma_lower_keeps_spaces(rest);
    lemma_trailing_spaces_bound(rest);
    let b = rest.len() - trailing_spaces(rest);
    assert(lower_seq(rest).take(b) == lower_seq(rest.take(b)));
    assert(trim(lower_seq(head)) == lower_seq(trim(head)));
    let t = trim(head);
    assert(lower_seq(lower_seq(t)) == lower_seq(t)) by {
        assert forall|j: int| 0 <= j < t.len() implies lower(lower(t[j])) == lower(t[j]) by {}
        assert(lower_seq(lower_seq(t)) =~= lower_seq(t));
    }
}

/// The leading white space of a text is no longer than the text.
proof fn lemma_leading_spaces_bound(s: Seq<char>)
    ensures
        leading_spaces(s) <= s.len(),
    decreases s.len(),
{
    if s.len() > 0 && is_space(s[0]) {
        lemma_leading_spaces_bound(s.skip(1));
    }
}

/// The trailing white space of a text is no longer than the text.
proof fn lemma_trailing_spaces_bound(s: Seq<char>)
    ensures
        trailing_spaces(s) <= s.len(),
    decreases s.len(),
{
    if s.len() > 0 && is_space(s.last()) {
        lemma_trailing_spaces_bound(s.drop_last());
    }
}

} // verus!
