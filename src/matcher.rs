use fuzzy_matcher::skim::SkimMatcherV2;
use fuzzy_matcher::FuzzyMatcher;
use vstd::prelude::*;

verus! {

/// The score that skim's V2 matcher, in its default configuration (smart case),
/// gives to `choice` against `pattern`; `None` when the pattern does not match.
pub uninterp spec fn skim_score(choice: Seq<char>, pattern: Seq<char>) -> Option<i64>;

/// `c` is an ASCII upper-case letter.
pub open spec fn is_ascii_upper(c: char) -> bool {
    'A' <= c <= 'Z'
}

/// `pattern` holds an ASCII upper-case letter, which makes the match case-sensitive.
pub open spec fn has_upper(pattern: Seq<char>) -> bool {
    exists|i: int| 0 <= i < pattern.len() && is_ascii_upper(#[trigger] pattern[i])
}

/// Two characters are equal, or, where case is ignored, equal up to ASCII case.
pub open spec fn chars_match(a: char, b: char, case_sensitive: bool) -> bool {
    ||| a == b
    ||| !case_sensitive && is_ascii_upper(a) && a as u32 + 32 == b as u32
    ||| !case_sensitive && is_ascii_upper(b) && b as u32 + 32 == a as u32
}

/// The characters of `pattern` occur in `choice` in order, each matched to the first
/// character that fits.
pub open spec fn occurs_in_order(choice: Seq<char>, pattern: Seq<char>, case_sensitive: bool) -> bool
    decreases choice.len(),
{
    if pattern.len() == 0 {
        true
    } else if choice.len() == 0 {
        false
    } else if chars_match(choice[0], pattern[0], case_sensitive) {
        occurs_in_order(choice.drop_first(), pattern.drop_first(), case_sensitive)
    } else {
        occurs_in_order(choice.drop_first(), pattern, case_sensitive)
    }
}

/// Dropping the first character of a pattern keeps it in order in `choice`.
pub proof fn lemma_occurs_drop_first(choice: Seq<char>, pattern: Seq<char>, cs: bool)
    requires
        pattern.len() > 0,
        occurs_in_order(choice, pattern, cs),
    ensures
        occurs_in_order(choice, pattern.drop_first(), cs),
    decreases choice.len(),
{
    let rest = choice.drop_first();
    let p1 = pattern.drop_first();
    if chars_match(choice[0], pattern[0], cs) {
        if p1.len() > 0 {
            lemma_occurs_drop_first(rest, p1, cs);
        }
    } else {
        lemma_occurs_drop_first(rest, pattern, cs);
        if p1.len() > 0 && chars_match(choice[0], p1[0], cs) {
            lemma_occurs_drop_first(rest, p1, cs);
        }
    }
}

/// A pattern found in order case-sensitively is also found ignoring case.
pub proof fn lemma_occurs_ignoring_case(choice: Seq<char>, pattern: Seq<char>)
    requires
        occurs_in_order(choice, pattern, true),
    ensures
        occurs_in_order(choice, pattern, false),
    decreases choice.len(),
{
    if pattern.len() > 0 {
        let rest = choice.drop_first();
        if chars_match(choice[0], pattern[0], true) {
            lemma_occurs_ignoring_case(rest, pattern.drop_first());
        } else {
            lemma_occurs_ignoring_case(rest, pattern);
            if chars_match(choice[0], pattern[0], false) {
                lemma_occurs_drop_first(rest, pattern, false);
            }
        }
    }
}

/// A pattern found in order stays found when its last character is taken off.
pub proof fn lemma_occurs_prefix(choice: Seq<char>, pattern: Seq<char>, x: char, cs: bool)
    requires
        occurs_in_order(choice, pattern.push(x), cs),
    ensures
        occurs_in_order(choice, pattern, cs),
    decreases choice.len(),
{
    if pattern.len() > 0 {
        let rest = choice.drop_first();
        assert(pattern.push(x)[0] == pattern[0]);
        if chars_match(choice[0], pattern[0], cs) {
            assert(pattern.push(x).drop_first() =~= pattern.drop_first().push(x));
            lemma_occurs_prefix(rest, pattern.drop_first(), x, cs);
        } else {
            lemma_occurs_prefix(rest, pattern, x, cs);
        }
    }
}

/// With the case rule of a smart-case matcher: a candidate in which a query extended
/// by one character is found also holds the query itself.
pub proof fn lemma_smart_case_prefix(choice: Seq<char>, pattern: Seq<char>, x: char)
    requires
        occurs_in_order(choice, pattern.push(x), has_upper(pattern.push(x))),
    ensures
        occurs_in_order(choice, pattern, has_upper(pattern)),
{
    let longer = pattern.push(x);
    if has_upper(pattern) {
        let i = choose|i: int| 0 <= i < pattern.len() && is_ascii_upper(#[trigger] pattern[i]);
        assert(longer[i] == pattern[i]);
        lemma_occurs_prefix(choice, pattern, x, true);
    } else {
        if has_upper(longer) {
            lemma_occurs_ignoring_case(choice, longer);
        }
        lemma_occurs_prefix(choice, pattern, x, false);
    }
}

/// Relies on `SkimMatcherV2::fuzzy_match` (default configuration): its result
/// depends on the two strings alone, the matcher's caches being scratch space; for a
/// non-empty pattern it is a score exactly when `cheap_matches` finds the pattern's
/// characters in order in the choice, case-sensitively only if the pattern holds an
/// ASCII upper-case letter.
#[verifier::external_body]
pub(crate) fn fuzzy_score(choice: &str, pattern: &str) -> (r: Option<i64>)
    ensures
        r == skim_score(choice@, pattern@),
        pattern@.len() > 0 ==> (r is Some <==> occurs_in_order(choice@, pattern@, has_upper(pattern@))),
{
    SkimMatcherV2::default().fuzzy_match(choice, pattern)
}

} // verus!
