//! Lexical primitives: what a single scanning step takes from the front of the text.
//!
//! The five scanners at the end of this module call nom. Their contracts are not proved:
//! they restate, over the characters of the text, what nom's source does on string
//! slices. nom compares and splits by bytes; in UTF-8 a prefix in bytes that is itself
//! text is the same prefix in characters, so the contracts speak of characters.

use vstd::prelude::*;
use crate::chars::CharClass;

verus! {

/// The number of characters at the front of `s` that belong to `class`.
pub open spec fn run_len(s: Seq<char>, class: CharClass) -> nat
    decreases s.len(),
{
    if s.len() > 0 && class.holds(s[0]) {
        1 + run_len(s.drop_first(), class)
    } else {
        0
    }
}

/// What is left of `s` after the literal `lit` at its front, if `s` begins with it.
pub open spec fn strip(s: Seq<char>, lit: Seq<char>) -> Option<Seq<char>> {
    if lit.is_prefix_of(s) {
        Some(s.skip(lit.len() as int))
    } else {
        None
    }
}

/// The least index at which `pat` occurs in `s`.
pub open spec fn first_occurrence(s: Seq<char>, pat: Seq<char>) -> Option<nat>
    decreases s.len(),
{
    if pat.is_prefix_of(s) {
        Some(0)
    } else if s.len() == 0 {
        None
    } else {
        match first_occurrence(s.drop_first(), pat) {
            Some(i) => Some(i + 1),
            None => None,
        }
    }
}

/// What is left of `s` after the line ending at its front: a line feed, or a carriage
/// return and a line feed.
pub open spec fn end_of_line(s: Seq<char>) -> Option<Seq<char>> {
    if s.len() >= 1 && s[0] == '\n' {
        Some(s.skip(1))
    } else if s.len() >= 2 && s[0] == '\r' && s[1] == '\n' {
        Some(s.skip(2))
    } else {
        None
    }
}

/// Whether `rest` is what is left of `s` after some characters at its front.
pub open spec fn is_tail(rest: Seq<char>, s: Seq<char>) -> bool {
    rest.len() <= s.len() && rest == s.skip(s.len() - rest.len())
}

/// A run is no longer than the text it starts.
pub proof fn lemma_run_len_bound(s: Seq<char>, class: CharClass)
    ensures
        run_len(s, class) <= s.len(),
    decreases s.len(),
{
    if s.len() > 0 && class.holds(s[0]) {
        lemma_run_len_bound(s.drop_first(), class);
    }
}

/// Every character of a run belongs to the class, and the character after it, if there
/// is one, does not.
pub proof fn lemma_run_len_members(s: Seq<char>, class: CharClass)
    ensures
        forall|i: int| 0 <= i < run_len(s, class) ==> class.holds(#[trigger] s[i]),
        run_len(s, class) < s.len() ==> !class.holds(s[run_len(s, class) as int]),
    decreases s.len(),
{
    lemma_run_len_bound(s, class);
    if s.len() > 0 && class.holds(s[0]) {
        let tail = s.drop_first();
        lemma_run_len_members(tail, class);
        assert forall|i: int| 0 <= i < run_len(s, class) implies class.holds(#[trigger] s[i]) by {
            if i > 0 {
                assert(s[i] == tail[i - 1]);
            }
        }
        if run_len(s, class) < s.len() {
            assert(s[run_len(s, class) as int] == tail[run_len(tail, class) as int]);
        }
    }
}

/// The first occurrence of a pattern is an occurrence, lies within the text, and has no
/// occurrence before it; where there is none, the pattern occurs nowhere.
pub proof fn lemma_first_occurrence(s: Seq<char>, pat: Seq<char>)
    ensures
        match first_occurrence(s, pat) {
            Some(i) => {
                &&& i + pat.len() <= s.len()
                &&& pat.is_prefix_of(s.skip(i as int))
                &&& forall|j: int| 0 <= j < i ==> !pat.is_prefix_of(#[trigger] s.skip(j))
            },
            None => forall|j: int| 0 <= j <= s.len() ==> !pat.is_prefix_of(#[trigger] s.skip(j)),
        },
    decreases s.len(),
{
    assert(s.skip(0) =~= s);
    if pat.is_prefix_of(s) {
    } else if s.len() == 0 {
    } else {
        let tail = s.drop_first();
        lemma_first_occurrence(tail, pat);
        assert forall|j: int| 1 <= j <= s.len() implies #[trigger] s.skip(j) == tail.skip(j - 1) by {
            assert(s.skip(j) =~= tail.skip(j - 1));
        }
        match first_occurrence(tail, pat) {
            Some(i) => {
                assert forall|j: int| 0 <= j < i + 1 implies !pat.is_prefix_of(
                    #[trigger] s.skip(j),
                ) by {
                    if j > 0 {
                        assert(!pat.is_prefix_of(tail.skip(j - 1)));
                    }
                }
            },
            None => {
                assert forall|j: int| 0 <= j <= s.len() implies !pat.is_prefix_of(
                    #[trigger] s.skip(j),
                ) by {
                    if j > 0 {
                        assert(!pat.is_prefix_of(tail.skip(j - 1)));
                    }
                }
            },
        }
    }
}

/// What is left after skipping part of a tail is a tail.
pub proof fn lemma_skip_tail(s: Seq<char>, n: int, whole: Seq<char>)
    requires
        is_tail(s, whole),
        0 <= n <= s.len(),
    ensures
        is_tail(s.skip(n), whole),
{
    assert(s.skip(n) =~= whole.skip(whole.len() - s.skip(n).len()));
}

/// A tail of a tail is a tail.
pub proof fn lemma_tail_of_tail(a: Seq<char>, b: Seq<char>, c: Seq<char>)
    requires
        is_tail(a, b),
        is_tail(b, c),
    ensures
        is_tail(a, c),
{
    lemma_skip_tail(b, b.len() - a.len(), c);
}

/// What `strip` leaves is a tail, shorter by the literal's length.
pub proof fn lemma_strip_tail(s: Seq<char>, lit: Seq<char>)
    ensures
        match strip(s, lit) {
            Some(rest) => is_tail(rest, s) && rest.len() + lit.len() == s.len(),
            None => true,
        },
{
    if lit.is_prefix_of(s) {
        assert(s.skip(0) =~= s);
        lemma_skip_tail(s, lit.len() as int, s);
    }
}

/// What `end_of_line` leaves is a shorter tail.
pub proof fn lemma_end_of_line_tail(s: Seq<char>)
    ensures
        match end_of_line(s) {
            Some(rest) => is_tail(rest, s) && rest.len() < s.len(),
            None => true,
        },
{
    assert(s.skip(0) =~= s);
    if end_of_line(s) is Some {
        lemma_skip_tail(s, s.len() - end_of_line(s)->0.len(), s);
    }
}

/// `nom::bytes::complete::tag` on string slices: succeeds exactly when the input begins
/// with the literal, and then returns the input without it.
#[verifier::external_body]
pub(crate) fn tag<'a>(lit: &str, input: &'a str) -> (r: Option<&'a str>)
    ensures
        match r {
            Some(rest) => strip(input@, lit@) == Some(rest@),
            None => strip(input@, lit@) is None,
        },
{
    match nom::bytes::complete::tag::<&str, &'a str, nom::error::Error<&'a str>>(lit)(input) {
        Ok((rest, _)) => Some(rest),
        Err(_) => None,
    }
}

/// `nom::bytes::complete::take_while1` on string slices, with membership in `class` as
/// the predicate: splits the input after its longest prefix of characters of the class and
/// returns the remainder and that prefix, or fails when the prefix is empty.
#[verifier::external_body]
pub(crate) fn take_while1<'a>(class: CharClass, input: &'a str) -> (r: Option<(&'a str, &'a str)>)
    ensures
        match r {
            Some((rest, token)) => {
                &&& run_len(input@, class) > 0
                &&& token@ == input@.take(run_len(input@, class) as int)
                &&& rest@ == input@.skip(run_len(input@, class) as int)
            },
            None => run_len(input@, class) == 0,
        },
{
    let member = |c: char| class.contains(c);
    match nom::bytes::complete::take_while1::<_, &'a str, nom::error::Error<&'a str>>(member)(input) {
        Ok(found) => Some(found),
        Err(_) => None,
    }
}

/// `nom::bytes::complete::take_until` on string slices: splits the input before the first
/// occurrence of `pat` and returns the remainder, which begins with `pat`, and the text
/// before it; fails when `pat` does not occur.
#[verifier::external_body]
pub(crate) fn take_until<'a>(pat: &str, input: &'a str) -> (r: Option<(&'a str, &'a str)>)
    ensures
        match r {
            Some((rest, before)) => {
                &&& first_occurrence(input@, pat@) is Some
                &&& before@ == input@.take(first_occurrence(input@, pat@)->0 as int)
                &&& rest@ == input@.skip(first_occurrence(input@, pat@)->0 as int)
            },
            None => first_occurrence(input@, pat@) is None,
        },
{
    match nom::bytes::complete::take_until::<&str, &'a str, nom::error::Error<&'a str>>(pat)(input) {
        Ok(found) => Some(found),
        Err(_) => None,
    }
}

/// `nom::character::complete::line_ending` on string slices: accepts `"\n"` or `"\r\n"`
/// at the front of the input and returns the input without it.
#[verifier::external_body]
pub(crate) fn line_ending<'a>(input: &'a str) -> (r: Option<&'a str>)
    ensures
        match r {
            Some(rest) => end_of_line(input@) == Some(rest@),
            None => end_of_line(input@) is None,
        },
{
    match nom::character::complete::line_ending::<&'a str, nom::error::Error<&'a str>>(input) {
        Ok((rest, _)) => Some(rest),
        Err(_) => None,
    }
}

/// `nom::character::complete::space0` on string slices: returns the input without the
/// spaces and tabs at its front. It never fails.
#[verifier::external_body]
pub(crate) fn space0<'a>(input: &'a str) -> (rest: &'a str)
    ensures
        rest@ == input@.skip(run_len(input@, CharClass::Blank) as int),
{
    match nom::character::complete::space0::<&'a str, nom::error::Error<&'a str>>(input) {
        Ok((rest, _)) => rest,
        Err(_) => input,
    }
}

} // verus!
