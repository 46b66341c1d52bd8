//! A whole snapshot: the two header lines, then distributions up to the end of the text.

use vstd::prelude::*;
use vstd::utf8::encode_utf8;
use crate::error::{byte_offset, ErrorKind, ParseError};
use crate::grammar::{dist, dist_block, lemma_dist_block_tail, lemma_name_characters};
use crate::index::{
    distinct_keys, has_key, index_of, is_last_with_key, keys_of, lemma_index_counts_distinct_keys,
    lemma_index_keys, lemma_index_last_wins, StrMap,
};
use crate::lex::{is_tail, lemma_strip_tail, lemma_tail_of_tail, strip, tag};
use crate::model::{DistView, Dists};

verus! {

/// The two header lines. Gives the text after them, or else the text from the header
/// line that is missing or differs on.
pub open spec fn header_lines(s: Seq<char>) -> Result<Seq<char>, Seq<char>> {
    match strip(s, "# carton snapshot format: version 1.0\n"@) {
        None => Err(s),
        Some(s1) => match strip(s1, "DISTRIBUTIONS\n"@) {
            None => Err(s1),
            Some(rest) => Ok(rest),
        },
    }
}

/// Distributions, one after another up to the end of the text, after the distributions
/// `acc` that were read before them. Gives the name and record of each, in the order of
/// the text; or else what is wrong with the first text that is no distribution, and the
/// text from the offending line on.
pub open spec fn blocks(s: Seq<char>, acc: Seq<(Seq<char>, DistView)>) -> Result<
    Seq<(Seq<char>, DistView)>,
    (ErrorKind, Seq<char>),
>
    decreases s.len(),
{
    if s.len() == 0 {
        Ok(acc)
    } else {
        match dist_block(s) {
            Err(failure) => Err(failure),
            Ok((rest, name, record)) => {
                proof {
                    lemma_dist_block_tail(s);
                }
                blocks(rest, acc.push((name, record)))
            },
        }
    }
}

/// The distributions of the text `s`, which holds nothing else, indexed by name. Of two
/// distributions with one name the later one counts.
pub open spec fn distributions(s: Seq<char>) -> Result<
    Map<Seq<char>, DistView>,
    (ErrorKind, Seq<char>),
> {
    match blocks(s, Seq::empty()) {
        Ok(found) => Ok(index_of(found)),
        Err(failure) => Err(failure),
    }
}

/// The distributions of a snapshot by name; or else what is wrong with the text and the
/// text from the offending line on.
pub open spec fn document(s: Seq<char>) -> Result<
    Map<Seq<char>, DistView>,
    (ErrorKind, Seq<char>),
> {
    match header_lines(s) {
        Err(at) => Err((ErrorKind::HeaderMismatch, at)),
        Ok(rest) => distributions(rest),
    }
}

/// The distributions of a snapshot in the order of the text, each with its name; or
/// else what is wrong with the text and the text from the offending line on.
pub open spec fn records(s: Seq<char>) -> Result<
    Seq<(Seq<char>, DistView)>,
    (ErrorKind, Seq<char>),
> {
    match header_lines(s) {
        Err(at) => Err((ErrorKind::HeaderMismatch, at)),
        Ok(rest) => blocks(rest, Seq::empty()),
    }
}

/// A snapshot with `n` distributions has `n` entries where no name repeats. Where names
/// repeat it has one entry for each distinct name, and under a name the record of the
/// last distribution of that name.
pub proof fn lemma_document_entries(s: Seq<char>)
    ensures
        match records(s) {
            Ok(found) => {
                &&& document(s) == Ok::<_, (ErrorKind, Seq<char>)>(index_of(found))
                &&& index_of(found).dom().finite()
                &&& index_of(found).dom() == keys_of(found).to_set()
                &&& index_of(found).dom().len() <= found.len()
                &&& distinct_keys(found) <==> index_of(found).dom().len() == found.len()
                &&& forall|i: int|
                    is_last_with_key(found, i) ==> index_of(found).dom().contains(
                        (#[trigger] found[i]).0,
                    ) && index_of(found)[found[i].0] == found[i].1
            },
            Err(failure) => document(s) == Err::<Map<Seq<char>, DistView>, _>(failure),
        },
{
    if let Ok(found) = records(s) {
        lemma_index_counts_distinct_keys(found);
        assert forall|i: int| is_last_with_key(found, i) implies index_of(found).dom().contains(
            (#[trigger] found[i]).0,
        ) && index_of(found)[found[i].0] == found[i].1 by {
            lemma_index_last_wins(found, i);
        }
    }
}

/// Distributions read after others keep those and add names that are not empty.
pub proof fn lemma_blocks_names(s: Seq<char>, acc: Seq<(Seq<char>, DistView)>)
    requires
        forall|i: int| 0 <= i < acc.len() ==> (#[trigger] acc[i]).0.len() > 0,
    ensures
        match blocks(s, acc) {
            Ok(found) => forall|i: int| 0 <= i < found.len() ==> (#[trigger] found[i]).0.len() > 0,
            Err(_) => true,
        },
    decreases s.len(),
{
    if s.len() > 0 {
        lemma_dist_block_tail(s);
        lemma_name_characters(s);
        if let Ok((rest, name, record)) = dist_block(s) {
            lemma_blocks_names(rest, acc.push((name, record)));
        }
    }
}

/// No distribution of a snapshot has an empty name.
pub proof fn lemma_document_names(s: Seq<char>)
    ensures
        match document(s) {
            Ok(found) => !found.dom().contains(Seq::<char>::empty()),
            Err(_) => true,
        },
{
    if let Ok(found) = records(s) {
        lemma_blocks_names(header_lines(s)->Ok_0, Seq::empty());
        lemma_index_keys(found);
        if has_key(found, Seq::<char>::empty()) {
            let i = choose|i: int|
                0 <= i < found.len() && (#[trigger] found[i]).0 == Seq::<char>::empty();
            assert(found[i].0.len() > 0);
        }
    }
}

/// The header lines end in the text, and so does the line at which they fail.
pub proof fn lemma_header_lines_tail(s: Seq<char>)
    ensures
        match header_lines(s) {
            Ok(rest) => is_tail(rest, s),
            Err(at) => is_tail(at, s),
        },
{
    assert(s.skip(0) =~= s);
    lemma_strip_tail(s, "# carton snapshot format: version 1.0\n"@);
    if let Some(s1) = strip(s, "# carton snapshot format: version 1.0\n"@) {
        lemma_strip_tail(s1, "DISTRIBUTIONS\n"@);
        if let Some(rest) = strip(s1, "DISTRIBUTIONS\n"@) {
            lemma_tail_of_tail(rest, s1, s);
        }
    }
}

/// The line at which a run of distributions fails lies in the text.
pub proof fn lemma_blocks_tail(s: Seq<char>, acc: Seq<(Seq<char>, DistView)>)
    ensures
        match blocks(s, acc) {
            Ok(_) => true,
            Err((_, at)) => is_tail(at, s),
        },
    decreases s.len(),
{
    if s.len() > 0 {
        lemma_dist_block_tail(s);
        if let Ok((rest, name, record)) = dist_block(s) {
            lemma_blocks_tail(rest, acc.push((name, record)));
            if let Err((_, at)) = blocks(rest, acc.push((name, record))) {
                lemma_tail_of_tail(at, rest, s);
            }
        }
    }
}

/// The line at which a snapshot fails lies in the text.
pub proof fn lemma_document_tail(s: Seq<char>)
    ensures
        match document(s) {
            Ok(_) => true,
            Err((_, at)) => is_tail(at, s),
        },
{
    lemma_header_lines_tail(s);
    if let Ok(rest) = header_lines(s) {
        lemma_blocks_tail(rest, Seq::empty());
        if let Err((_, at)) = blocks(rest, Seq::empty()) {
            lemma_tail_of_tail(at, rest, s);
        }
    }
}

/// The encoding of a text is the encoding of its front followed by that of its end.
pub proof fn lemma_encode_utf8_concat(a: Seq<char>, b: Seq<char>)
    ensures
        encode_utf8(a + b) == encode_utf8(a) + encode_utf8(b),
    decreases a.len(),
{
    if a.len() == 0 {
        assert(a + b =~= b);
        assert(encode_utf8(a) + encode_utf8(b) =~= encode_utf8(b));
    } else {
        assert((a + b).drop_first() =~= a.drop_first() + b);
        lemma_encode_utf8_concat(a.drop_first(), b);
        assert(encode_utf8(a + b) =~= encode_utf8(a) + encode_utf8(b));
    }
}

/// The bytes before a tail and the bytes of the tail make up the bytes of the text.
pub proof fn lemma_byte_offset(input: Seq<char>, rest: Seq<char>)
    requires
        is_tail(rest, input),
    ensures
        byte_offset(input, rest) + encode_utf8(rest).len() == encode_utf8(input).len(),
{
    let n = input.len() - rest.len();
    assert(input =~= input.take(n) + rest);
    lemma_encode_utf8_concat(input.take(n), rest);
}

/// Recognises the two header lines; returns the text after them, or else the text from
/// the header line that is missing or differs on.
pub fn header<'a>(input: &'a str) -> (r: Result<&'a str, &'a str>)
    ensures
        match r {
            Ok(rest) => header_lines(input@) == Ok::<_, Seq<char>>(rest@),
            Err(at) => header_lines(input@) == Err::<Seq<char>, _>(at@),
        },
{
    let s1 = match tag("# carton snapshot format: version 1.0\n", input) {
        Some(s1) => s1,
        None => {
            return Err(input);
        },
    };
    match tag("DISTRIBUTIONS\n", s1) {
        Some(rest) => Ok(rest),
        None => Err(s1),
    }
}

/// Reads distributions up to the end of the text into an index by name; or else says
/// what is wrong with the first text that is no distribution, and returns the text from
/// the offending line on.
pub fn dists<'a>(input: &'a str) -> (r: Result<Dists<'a>, (ErrorKind, &'a str)>)
    ensures
        match r {
            Ok(found) => distributions(input@) == Ok::<_, (ErrorKind, Seq<char>)>(found@),
            Err((kind, at)) => distributions(input@) == Err::<Map<Seq<char>, DistView>, _>(
                (kind, at@),
            ),
        },
{
    let mut found: Dists<'a> = StrMap::new();
    let mut cur = input;
    let ghost mut seen: Seq<(Seq<char>, DistView)> = Seq::empty();
    loop
        invariant
            blocks(input@, Seq::empty()) == blocks(cur@, seen),
            found@ == index_of(seen),
        decreases cur@.len(),
    {
        if cur.is_empty() {
            return Ok(found);
        }
        match dist(cur) {
            Err(failure) => {
                return Err(failure);
            },
            Ok((rest, name, record)) => {
                proof {
                    lemma_dist_block_tail(cur@);
                    assert(seen.push((name@, record@)).drop_last() =~= seen);
                    seen = seen.push((name@, record@));
                }
                found.insert(name, record);
                cur = rest;
            },
        }
    }
}

/// Reads a snapshot: the header, then distributions up to the end of the text; or else
/// says what is wrong and returns the text from the offending line on.
pub fn file<'a>(input: &'a str) -> (r: Result<Dists<'a>, (ErrorKind, &'a str)>)
    ensures
        match r {
            Ok(found) => document(input@) == Ok::<_, (ErrorKind, Seq<char>)>(found@),
            Err((kind, at)) => document(input@) == Err::<Map<Seq<char>, DistView>, _>(
                (kind, at@),
            ),
        },
{
    match header(input) {
        Ok(rest) => dists(rest),
        Err(at) => Err((ErrorKind::HeaderMismatch, at)),
    }
}

/// Parses the text of a snapshot into its distributions by name.
///
/// The text is a snapshot when it is the two header lines followed by distributions and
/// nothing else. Then the result is the index of those distributions; where a name
/// occurs twice, the later distribution is the one kept. Otherwise no index is
/// returned, and the error says what is wrong with the first line that does not fit and
/// how many bytes of the text lie before it.
pub fn parse<'a>(input: &'a str) -> (r: Result<Dists<'a>, ParseError>)
    ensures
        match r {
            Ok(found) => document(input@) == Ok::<_, (ErrorKind, Seq<char>)>(found@),
            Err(e) => match document(input@) {
                Ok(_) => false,
                Err((kind, at)) => e.kind == kind && e.offset == byte_offset(input@, at),
            },
        },
{
    match file(input) {
        Ok(found) => Ok(found),
        Err((kind, at)) => {
            let whole: usize = input.as_bytes().len();
            let left: usize = at.as_bytes().len();
            proof {
                lemma_document_tail(input@);
                lemma_byte_offset(input@, at@);
            }
            Err(ParseError { kind, offset: whole - left })
        },
    }
}

} // verus!
