//! The rules of the snapshot format, each as a function from the text at the cursor to
//! what it recognises there and the text that follows.
//!
//! ```text
//! Distribution  := "  " name NEWLINE
//!                  "    pathname: " path NEWLINE
//!                  [ "    provides:\n" PropertyLine* ]
//!                  [ "    requirements:\n" PropertyLine* ]
//! PropertyLine  := "      " key " "+ Value NEWLINE
//! Value         := "undef" | blank* version
//! ```

use vstd::prelude::*;
use crate::chars::CharClass;
use crate::index::index_of;
use crate::error::ErrorKind;
use crate::index::StrMap;
use crate::lex::{
    end_of_line, first_occurrence, is_tail, lemma_end_of_line_tail, lemma_first_occurrence,
    lemma_run_len_bound, lemma_run_len_members, lemma_skip_tail, lemma_strip_tail, lemma_tail_of_tail, line_ending,
    run_len, space0, strip, tag, take_until, take_while1,
};
use crate::model::{Dist, DistView, Properties, PropertyValue, ValueView};

verus! {

/// The line that opens a distribution: two spaces, the name, a line ending. Gives the
/// text after the line and the name.
pub open spec fn name_line(s: Seq<char>) -> Option<(Seq<char>, Seq<char>)> {
    match strip(s, "  "@) {
        None => None,
        Some(s1) => {
            let n = run_len(s1, CharClass::Name) as int;
            match end_of_line(s1.skip(n)) {
                Some(rest) if n > 0 => Some((rest, s1.take(n))),
                _ => None,
            }
        },
    }
}

/// The line that gives a distribution's path: four spaces, `pathname: `, the path, which
/// runs up to the next line feed, and a line ending. Gives the text after the line and
/// the path.
pub open spec fn pathname_line(s: Seq<char>) -> Option<(Seq<char>, Seq<char>)> {
    match strip(s, "    "@) {
        None => None,
        Some(s1) => match strip(s1, "pathname: "@) {
            None => None,
            Some(s2) => match first_occurrence(s2, "\n"@) {
                None => None,
                Some(i) => match end_of_line(s2.skip(i as int)) {
                    None => None,
                    Some(rest) => Some((rest, s2.take(i as int))),
                },
            },
        },
    }
}

/// A version expression: spaces and tabs, which are skipped, then one or more version
/// characters, which are the value.
pub open spec fn version_token(s: Seq<char>) -> Option<(Seq<char>, ValueView)> {
    let s1 = s.skip(run_len(s, CharClass::Blank) as int);
    let n = run_len(s1, CharClass::Version) as int;
    if n > 0 {
        Some((s1.skip(n), ValueView::VersionSpec(s1.take(n))))
    } else {
        None
    }
}

/// The word `undef`.
pub open spec fn undef_literal(s: Seq<char>) -> Option<(Seq<char>, ValueView)> {
    match strip(s, "undef"@) {
        Some(rest) => Some((rest, ValueView::Undefined)),
        None => None,
    }
}

/// The value of a property: the word `undef`, or else a version expression.
pub open spec fn property_value(s: Seq<char>) -> Option<(Seq<char>, ValueView)> {
    match undef_literal(s) {
        Some(found) => Some(found),
        None => version_token(s),
    }
}

/// A property line: six spaces, the key, one or more spaces, the value, a line ending.
/// Gives the text after the line, the key and the value.
pub open spec fn property_line(s: Seq<char>) -> Option<(Seq<char>, Seq<char>, ValueView)> {
    match strip(s, "      "@) {
        None => None,
        Some(s1) => {
            let k = run_len(s1, CharClass::Key) as int;
            let s2 = s1.skip(k);
            let g = run_len(s2, CharClass::Space) as int;
            if k > 0 && g > 0 {
                match property_value(s2.skip(g)) {
                    None => None,
                    Some((s3, value)) => match end_of_line(s3) {
                        None => None,
                        Some(rest) => Some((rest, s1.take(k), value)),
                    },
                }
            } else {
                None
            }
        },
    }
}

/// Property lines, one after another, after the lines `acc` that were read before them.
/// The list ends before the first line that does not begin with six spaces; a line that
/// does and is no property line is an error, reported with the text from that line on.
pub open spec fn property_lines(s: Seq<char>, acc: Seq<(Seq<char>, ValueView)>) -> Result<
    (Seq<char>, Seq<(Seq<char>, ValueView)>),
    Seq<char>,
>
    decreases s.len(),
{
    if strip(s, "      "@) is None {
        Ok((s, acc))
    } else {
        match property_line(s) {
            None => Err(s),
            Some((rest, key, value)) => {
                proof {
                    lemma_property_line_tail(s);
                }
                property_lines(rest, acc.push((key, value)))
            },
        }
    }
}

/// The properties of a section: its property lines, indexed by key. Of two lines with
/// one key the later one counts.
pub open spec fn property_list(s: Seq<char>) -> Result<
    (Seq<char>, Map<Seq<char>, ValueView>),
    Seq<char>,
> {
    match property_lines(s, Seq::empty()) {
        Ok((rest, lines)) => Ok((rest, index_of(lines))),
        Err(at) => Err(at),
    }
}

/// An optional section: four spaces and `title`, then property lines. Where the text
/// does not begin with the title line, the section is absent and nothing is consumed.
pub open spec fn section(s: Seq<char>, title: Seq<char>) -> Result<
    (Seq<char>, Option<Map<Seq<char>, ValueView>>),
    Seq<char>,
> {
    match strip(s, "    "@) {
        None => Ok((s, None)),
        Some(s1) => match strip(s1, title) {
            None => Ok((s, None)),
            Some(s2) => match property_list(s2) {
                Ok((rest, properties)) => Ok((rest, Some(properties))),
                Err(at) => Err(at),
            },
        },
    }
}

/// One distribution: its name line, its `pathname` line, and the sections `provides:`
/// and `requirements:`, each optional, in that order. Gives the text after the
/// distribution, its name and its record; or else what is wrong and the text from the
/// offending line on.
pub open spec fn dist_block(s: Seq<char>) -> Result<
    (Seq<char>, Seq<char>, DistView),
    (ErrorKind, Seq<char>),
> {
    match name_line(s) {
        None => Err((ErrorKind::TrailingInput, s)),
        Some((s1, name)) => match pathname_line(s1) {
            None => Err((ErrorKind::MalformedDistribution, s1)),
            Some((s2, pathname)) => match section(s2, "provides:\n"@) {
                Err(at) => Err((ErrorKind::MalformedProperty, at)),
                Ok((s3, provides)) => match section(s3, "requirements:\n"@) {
                    Err(at) => Err((ErrorKind::MalformedProperty, at)),
                    Ok((rest, requirements)) => Ok(
                        (rest, name, DistView { pathname, provides, requirements }),
                    ),
                },
            },
        },
    }
}

/// Whether the text begins with the title line of a section: four spaces and `title`.
pub open spec fn has_title(s: Seq<char>, title: Seq<char>) -> bool {
    match strip(s, "    "@) {
        Some(s1) => title.is_prefix_of(s1),
        None => false,
    }
}

/// The text after the title line of a section.
pub open spec fn after_title(s: Seq<char>, title: Seq<char>) -> Seq<char> {
    match strip(s, "    "@) {
        Some(s1) => s1.skip(title.len() as int),
        None => s,
    }
}

/// A name is not empty and holds no whitespace.
pub proof fn lemma_name_characters(s: Seq<char>)
    ensures
        match name_line(s) {
            Some((_, name)) => name.len() > 0 && forall|i: int|
                0 <= i < name.len() ==> CharClass::Name.holds(#[trigger] name[i]),
            None => true,
        },
{
    if let Some(s1) = strip(s, "  "@) {
        lemma_run_len_bound(s1, CharClass::Name);
        lemma_run_len_members(s1, CharClass::Name);
    }
}

/// A path holds no line feed: it is the rest of its line.
pub proof fn lemma_pathname_characters(s: Seq<char>)
    ensures
        match pathname_line(s) {
            Some((_, path)) => forall|i: int| 0 <= i < path.len() ==> #[trigger] path[i] != '\n',
            None => true,
        },
{
    if let Some((_, path)) = pathname_line(s) {
        reveal_strlit("\n");
        let s2 = strip(strip(s, "    "@)->0, "pathname: "@)->0;
        lemma_first_occurrence(s2, "\n"@);
        assert forall|i: int| 0 <= i < path.len() implies #[trigger] path[i] != '\n' by {
            if path[i] == '\n' {
                assert("\n"@ =~= s2.skip(i).subrange(0, 1));
                assert("\n"@.is_prefix_of(s2.skip(i)));
            }
        }
    }
}

/// A key is not empty and holds only key characters.
pub proof fn lemma_key_characters(s: Seq<char>)
    ensures
        match property_line(s) {
            Some((_, key, _)) => key.len() > 0 && forall|i: int|
                0 <= i < key.len() ==> CharClass::Key.holds(#[trigger] key[i]),
            None => true,
        },
{
    if let Some(s1) = strip(s, "      "@) {
        lemma_run_len_bound(s1, CharClass::Key);
        lemma_run_len_members(s1, CharClass::Key);
    }
}

/// The word `undef` is always the undefined value. Any other value is a version
/// expression: exactly the characters of the text that lie after its leading spaces and
/// tabs and before the first character that is no version character, and at least one.
pub proof fn lemma_value_is_undef_or_text(s: Seq<char>)
    ensures
        "undef"@.is_prefix_of(s) ==> property_value(s) == Some(
            (s.skip("undef"@.len() as int), ValueView::Undefined),
        ) && version_token(s) is None,
        !"undef"@.is_prefix_of(s) ==> match property_value(s) {
            Some((rest, ValueView::VersionSpec(text))) => {
                let from = run_len(s, CharClass::Blank) as int;
                &&& text.len() > 0
                &&& from + text.len() <= s.len()
                &&& text == s.subrange(from, from + text.len())
                &&& rest == s.skip(from + text.len())
                &&& forall|i: int| 0 <= i < from ==> CharClass::Blank.holds(#[trigger] s[i])
                &&& forall|i: int| 0 <= i < text.len() ==> CharClass::Version.holds(#[trigger] text[i])
                &&& rest.len() > 0 ==> !CharClass::Version.holds(rest[0])
            },
            Some((_, ValueView::Undefined)) => false,
            None => true,
        },
{
    if "undef"@.is_prefix_of(s) {
        reveal_strlit("undef");
        assert(s[0] == "undef"@[0]);
        assert(run_len(s.skip(0), CharClass::Version) == 0);
    } else {
        let from = run_len(s, CharClass::Blank) as int;
        lemma_run_len_bound(s, CharClass::Blank);
        lemma_run_len_members(s, CharClass::Blank);
        let s1 = s.skip(from);
        let n = run_len(s1, CharClass::Version) as int;
        lemma_run_len_bound(s1, CharClass::Version);
        lemma_run_len_members(s1, CharClass::Version);
        if n > 0 {
            assert(s1.take(n) =~= s.subrange(from, from + n));
            assert(s1.skip(n) =~= s.skip(from + n));
        }
    }
}

/// A text that begins with six spaces begins neither a distribution nor a section: a
/// line indented as a property can only be a property line.
pub proof fn lemma_property_indent_is_exclusive(s: Seq<char>)
    requires
        "      "@.is_prefix_of(s),
    ensures
        name_line(s) is None,
        !has_title(s, "provides:\n"@),
        !has_title(s, "requirements:\n"@),
{
    reveal_strlit("      ");
    reveal_strlit("    ");
    reveal_strlit("  ");
    reveal_strlit("provides:\n");
    reveal_strlit("requirements:\n");
    assert forall|i: int| 0 <= i < 6 implies s[i] == ' ' by {
        assert(s[i] == "      "@[i]);
    }
    assert("  "@ =~= s.subrange(0, 2));
    assert("    "@ =~= s.subrange(0, 4));
    let s1 = s.skip(2);
    assert(s1[0] == ' ');
    assert(run_len(s1, CharClass::Name) == 0);
    let s2 = s.skip(4);
    assert(s2[0] == ' ');
    if "provides:\n"@.is_prefix_of(s2) {
        assert(s2[0] == "provides:\n"@[0]);
    }
    if "requirements:\n"@.is_prefix_of(s2) {
        assert(s2[0] == "requirements:\n"@[0]);
    }
}

/// A section is present in the result exactly when its title line is in the text; an
/// absent section consumes nothing.
pub proof fn lemma_section_presence(s: Seq<char>, title: Seq<char>)
    ensures
        match section(s, title) {
            Ok((rest, found)) => (found is Some <==> has_title(s, title)) && (found is None
                ==> rest == s),
            Err(_) => has_title(s, title),
        },
{
}

/// A title line that no property line follows gives a section that is present and
/// empty.
pub proof fn lemma_section_without_lines(s: Seq<char>, title: Seq<char>)
    requires
        has_title(s, title),
        !"      "@.is_prefix_of(after_title(s, title)),
    ensures
        section(s, title) == Ok::<_, Seq<char>>(
            (after_title(s, title), Some(Map::<Seq<char>, ValueView>::empty())),
        ),
{
}

/// A distribution whose `pathname` line is followed by neither title line has neither
/// section: both are absent from its record, which ends after that line.
pub proof fn lemma_dist_without_sections(s: Seq<char>)
    requires
        (match name_line(s) {
            Some((s1, _)) => match pathname_line(s1) {
                Some((s2, _)) => !has_title(s2, "provides:\n"@) && !has_title(
                    s2,
                    "requirements:\n"@,
                ),
                None => false,
            },
            None => false,
        }),
    ensures
        (match name_line(s) {
            Some((s1, name)) => match pathname_line(s1) {
                Some((s2, pathname)) => dist_block(s) == Ok::<_, (ErrorKind, Seq<char>)>(
                    (s2, name, (DistView { pathname, provides: None, requirements: None })),
                ),
                None => false,
            },
            None => false,
        }),
{
}

/// A name line ends in the text; what follows it is shorter.
pub proof fn lemma_name_line_tail(s: Seq<char>)
    ensures
        match name_line(s) {
            Some((rest, _)) => is_tail(rest, s) && rest.len() < s.len(),
            None => true,
        },
{
    lemma_strip_tail(s, "  "@);
    if let Some(s1) = strip(s, "  "@) {
        let n = run_len(s1, CharClass::Name) as int;
        lemma_run_len_bound(s1, CharClass::Name);
        lemma_skip_tail(s1, n, s);
        lemma_end_of_line_tail(s1.skip(n));
        if let Some(rest) = end_of_line(s1.skip(n)) {
            lemma_tail_of_tail(rest, s1.skip(n), s);
        }
    }
}

/// A `pathname` line ends in the text; what follows it is shorter.
pub proof fn lemma_pathname_line_tail(s: Seq<char>)
    ensures
        match pathname_line(s) {
            Some((rest, _)) => is_tail(rest, s) && rest.len() < s.len(),
            None => true,
        },
{
    lemma_strip_tail(s, "    "@);
    if let Some(s1) = strip(s, "    "@) {
        lemma_strip_tail(s1, "pathname: "@);
        if let Some(s2) = strip(s1, "pathname: "@) {
            lemma_tail_of_tail(s2, s1, s);
            lemma_first_occurrence(s2, "\n"@);
            if let Some(i) = first_occurrence(s2, "\n"@) {
                lemma_skip_tail(s2, i as int, s);
                lemma_end_of_line_tail(s2.skip(i as int));
                if let Some(rest) = end_of_line(s2.skip(i as int)) {
                    lemma_tail_of_tail(rest, s2.skip(i as int), s);
                }
            }
        }
    }
}

/// A property's value ends in the text.
pub proof fn lemma_property_value_tail(s: Seq<char>)
    ensures
        match property_value(s) {
            Some((rest, _)) => is_tail(rest, s),
            None => true,
        },
{
    lemma_strip_tail(s, "undef"@);
    if strip(s, "undef"@) is None {
        let b = run_len(s, CharClass::Blank) as int;
        lemma_run_len_bound(s, CharClass::Blank);
        assert(s.skip(0) =~= s);
        lemma_skip_tail(s, b, s);
        let s1 = s.skip(b);
        lemma_run_len_bound(s1, CharClass::Version);
        lemma_skip_tail(s1, run_len(s1, CharClass::Version) as int, s);
    }
}

/// A property line ends in the text; what follows it is shorter.
pub proof fn lemma_property_line_tail(s: Seq<char>)
    ensures
        match property_line(s) {
            Some((rest, _, _)) => is_tail(rest, s) && rest.len() < s.len(),
            None => true,
        },
{
    lemma_strip_tail(s, "      "@);
    if let Some(s1) = strip(s, "      "@) {
        let k = run_len(s1, CharClass::Key) as int;
        lemma_run_len_bound(s1, CharClass::Key);
        lemma_skip_tail(s1, k, s);
        let s2 = s1.skip(k);
        let g = run_len(s2, CharClass::Space) as int;
        lemma_run_len_bound(s2, CharClass::Space);
        lemma_skip_tail(s2, g, s);
        lemma_property_value_tail(s2.skip(g));
        if let Some((s3, _)) = property_value(s2.skip(g)) {
            lemma_tail_of_tail(s3, s2.skip(g), s);
            lemma_end_of_line_tail(s3);
            if let Some(rest) = end_of_line(s3) {
                lemma_tail_of_tail(rest, s3, s);
            }
        }
    }
}

/// Property lines end in the text, and so does the line at which they fail.
pub proof fn lemma_property_lines_tail(s: Seq<char>, acc: Seq<(Seq<char>, ValueView)>)
    ensures
        match property_lines(s, acc) {
            Ok((rest, _)) => is_tail(rest, s),
            Err(at) => is_tail(at, s),
        },
    decreases s.len(),
{
    assert(s.skip(0) =~= s);
    if strip(s, "      "@) is Some {
        lemma_property_line_tail(s);
        if let Some((rest, key, value)) = property_line(s) {
            lemma_property_lines_tail(rest, acc.push((key, value)));
            match property_lines(rest, acc.push((key, value))) {
                Ok((end, _)) => lemma_tail_of_tail(end, rest, s),
                Err(at) => lemma_tail_of_tail(at, rest, s),
            }
        }
    }
}

/// A section ends in the text, and so does the line at which it fails.
pub proof fn lemma_section_tail(s: Seq<char>, title: Seq<char>)
    ensures
        match section(s, title) {
            Ok((rest, _)) => is_tail(rest, s),
            Err(at) => is_tail(at, s),
        },
{
    assert(s.skip(0) =~= s);
    lemma_strip_tail(s, "    "@);
    if let Some(s1) = strip(s, "    "@) {
        lemma_strip_tail(s1, title);
        if let Some(s2) = strip(s1, title) {
            lemma_tail_of_tail(s2, s1, s);
            lemma_property_lines_tail(s2, Seq::empty());
            match property_lines(s2, Seq::empty()) {
                Ok((rest, _)) => lemma_tail_of_tail(rest, s2, s),
                Err(at) => lemma_tail_of_tail(at, s2, s),
            }
        }
    }
}

/// A distribution ends in the text, and what follows it is shorter; the line at which
/// it fails lies in the text.
pub proof fn lemma_dist_block_tail(s: Seq<char>)
    ensures
        match dist_block(s) {
            Ok((rest, _, _)) => is_tail(rest, s) && rest.len() < s.len(),
            Err((_, at)) => is_tail(at, s),
        },
{
    assert(s.skip(0) =~= s);
    lemma_name_line_tail(s);
    if let Some((s1, _)) = name_line(s) {
        lemma_pathname_line_tail(s1);
        if let Some((s2, _)) = pathname_line(s1) {
            lemma_tail_of_tail(s2, s1, s);
            lemma_section_tail(s2, "provides:\n"@);
            match section(s2, "provides:\n"@) {
                Err(at) => lemma_tail_of_tail(at, s2, s),
                Ok((s3, _)) => {
                    lemma_tail_of_tail(s3, s2, s);
                    lemma_section_tail(s3, "requirements:\n"@);
                    match section(s3, "requirements:\n"@) {
                        Err(at) => lemma_tail_of_tail(at, s3, s),
                        Ok((rest, _)) => lemma_tail_of_tail(rest, s3, s),
                    }
                },
            }
        }
    }
}

/// Recognises the indentation of a distribution's name: two spaces.
pub fn level_2<'a>(input: &'a str) -> (r: Option<&'a str>)
    ensures
        match r {
            Some(rest) => strip(input@, "  "@) == Some(rest@),
            None => strip(input@, "  "@) is None,
        },
{
    tag("  ", input)
}

/// Recognises the indentation of a distribution's fields: four spaces.
pub fn level_4<'a>(input: &'a str) -> (r: Option<&'a str>)
    ensures
        match r {
            Some(rest) => strip(input@, "    "@) == Some(rest@),
            None => strip(input@, "    "@) is None,
        },
{
    tag("    ", input)
}

/// Recognises the indentation of a property line: six spaces.
pub fn level_6<'a>(input: &'a str) -> (r: Option<&'a str>)
    ensures
        match r {
            Some(rest) => strip(input@, "      "@) == Some(rest@),
            None => strip(input@, "      "@) is None,
        },
{
    tag("      ", input)
}

/// Recognises the line that opens a distribution; returns the text after it and the name.
pub fn name<'a>(input: &'a str) -> (r: Option<(&'a str, &'a str)>)
    ensures
        match r {
            Some((rest, name)) => name_line(input@) == Some((rest@, name@)),
            None => name_line(input@) is None,
        },
{
    let s1 = level_2(input)?;
    let (s2, name) = take_while1(CharClass::Name, s1)?;
    let rest = line_ending(s2)?;
    Some((rest, name))
}

/// Recognises the line that gives a distribution's path; returns the text after it and
/// the path.
pub fn pathname<'a>(input: &'a str) -> (r: Option<(&'a str, &'a str)>)
    ensures
        match r {
            Some((rest, path)) => pathname_line(input@) == Some((rest@, path@)),
            None => pathname_line(input@) is None,
        },
{
    let s1 = level_4(input)?;
    let s2 = tag("pathname: ", s1)?;
    let (s3, path) = take_until("\n", s2)?;
    let rest = line_ending(s3)?;
    Some((rest, path))
}

/// Recognises the word `undef`; returns the text after it and the value it stands for.
pub fn undef<'a>(input: &'a str) -> (r: Option<(&'a str, PropertyValue<'a>)>)
    ensures
        match r {
            Some((rest, value)) => undef_literal(input@) == Some((rest@, value@)),
            None => undef_literal(input@) is None,
        },
{
    let rest = tag("undef", input)?;
    Some((rest, PropertyValue::Undefined))
}

/// Recognises a version expression; returns the text after it and the expression.
pub fn version<'a>(input: &'a str) -> (r: Option<(&'a str, PropertyValue<'a>)>)
    ensures
        match r {
            Some((rest, value)) => version_token(input@) == Some((rest@, value@)),
            None => version_token(input@) is None,
        },
{
    let s1 = space0(input);
    let (rest, text) = take_while1(CharClass::Version, s1)?;
    Some((rest, PropertyValue::VersionSpec(text)))
}

/// Recognises the value of a property; returns the text after it and the value.
pub fn value<'a>(input: &'a str) -> (r: Option<(&'a str, PropertyValue<'a>)>)
    ensures
        match r {
            Some((rest, value)) => property_value(input@) == Some((rest@, value@)),
            None => property_value(input@) is None,
        },
{
    match undef(input) {
        Some(found) => Some(found),
        None => version(input),
    }
}

/// Recognises a property line; returns the text after it, the key and the value.
pub fn property<'a>(input: &'a str) -> (r: Option<(&'a str, &'a str, PropertyValue<'a>)>)
    ensures
        match r {
            Some((rest, key, value)) => property_line(input@) == Some((rest@, key@, value@)),
            None => property_line(input@) is None,
        },
{
    let s1 = level_6(input)?;
    let (s2, key) = take_while1(CharClass::Key, s1)?;
    let (s3, _) = take_while1(CharClass::Space, s2)?;
    let (s4, value) = value(s3)?;
    let rest = line_ending(s4)?;
    Some((rest, key, value))
}

/// Reads the property lines of a section into a map; returns the text after them and
/// the map, or else the text from the malformed property line on.
pub fn properties<'a>(input: &'a str) -> (r: Result<(&'a str, Properties<'a>), &'a str>)
    ensures
        match r {
            Ok((rest, map)) => property_list(input@) == Ok::<_, Seq<char>>((rest@, map@)),
            Err(at) => property_list(input@) == Err::<(Seq<char>, Map<Seq<char>, ValueView>), _>(
                at@,
            ),
        },
{
    let mut map: Properties<'a> = StrMap::new();
    let mut cur = input;
    let ghost mut lines: Seq<(Seq<char>, ValueView)> = Seq::empty();
    loop
        invariant
            property_lines(input@, Seq::empty()) == property_lines(cur@, lines),
            map@ == index_of(lines),
        decreases cur@.len(),
    {
        if level_6(cur).is_none() {
            return Ok((cur, map));
        }
        match property(cur) {
            None => {
                return Err(cur);
            },
            Some((rest, key, value)) => {
                proof {
                    lemma_property_line_tail(cur@);
                    assert(lines.push((key@, value@)).drop_last() =~= lines);
                    lines = lines.push((key@, value@));
                }
                map.insert(key, value);
                cur = rest;
            },
        }
    }
}

/// Reads an optional section whose title line is four spaces and `title`.
fn titled<'a>(title: &str, input: &'a str) -> (r: Result<
    (&'a str, Option<Properties<'a>>),
    &'a str,
>)
    ensures
        match r {
            Ok((rest, found)) => section(input@, title@) == Ok::<_, Seq<char>>(
                (rest@, crate::model::section_view(found)),
            ),
            Err(at) => section(input@, title@) == Err::<
                (Seq<char>, Option<Map<Seq<char>, ValueView>>),
                _,
            >(at@),
        },
{
    let s1 = match level_4(input) {
        Some(s1) => s1,
        None => {
            return Ok((input, None));
        },
    };
    let s2 = match tag(title, s1) {
        Some(s2) => s2,
        None => {
            return Ok((input, None));
        },
    };
    match properties(s2) {
        Ok((rest, map)) => Ok((rest, Some(map))),
        Err(at) => Err(at),
    }
}

/// Reads the section `provides:` if the text begins with it; returns the text after it
/// and its properties, or else the text from the malformed property line on.
pub fn provides<'a>(input: &'a str) -> (r: Result<(&'a str, Option<Properties<'a>>), &'a str>)
    ensures
        match r {
            Ok((rest, found)) => section(input@, "provides:\n"@) == Ok::<_, Seq<char>>(
                (rest@, crate::model::section_view(found)),
            ),
            Err(at) => section(input@, "provides:\n"@) == Err::<
                (Seq<char>, Option<Map<Seq<char>, ValueView>>),
                _,
            >(at@),
        },
{
    titled("provides:\n", input)
}

/// Reads the section `requirements:` if the text begins with it; returns the text after
/// it and its properties, or else the text from the malformed property line on.
pub fn requirements<'a>(input: &'a str) -> (r: Result<
    (&'a str, Option<Properties<'a>>),
    &'a str,
>)
    ensures
        match r {
            Ok((rest, found)) => section(input@, "requirements:\n"@) == Ok::<_, Seq<char>>(
                (rest@, crate::model::section_view(found)),
            ),
            Err(at) => section(input@, "requirements:\n"@) == Err::<
                (Seq<char>, Option<Map<Seq<char>, ValueView>>),
                _,
            >(at@),
        },
{
    titled("requirements:\n", input)
}

/// Reads one distribution; returns the text after it, its name and its record, or else
/// what is wrong and the text from the offending line on.
pub fn dist<'a>(input: &'a str) -> (r: Result<(&'a str, &'a str, Dist<'a>), (ErrorKind, &'a str)>)
    ensures
        match r {
            Ok((rest, name, record)) => dist_block(input@) == Ok::<_, (ErrorKind, Seq<char>)>(
                (rest@, name@, record@),
            ),
            Err((kind, at)) => dist_block(input@) == Err::<(Seq<char>, Seq<char>, DistView), _>(
                (kind, at@),
            ),
        },
{
    let (s1, name) = match name(input) {
        Some(found) => found,
        None => {
            return Err((ErrorKind::TrailingInput, input));
        },
    };
    let (s2, pathname) = match pathname(s1) {
        Some(found) => found,
        None => {
            return Err((ErrorKind::MalformedDistribution, s1));
        },
    };
    let (s3, provides) = match provides(s2) {
        Ok(found) => found,
        Err(at) => {
            return Err((ErrorKind::MalformedProperty, at));
        },
    };
    let (rest, requirements) = match requirements(s3) {
        Ok(found) => found,
        Err(at) => {
            return Err((ErrorKind::MalformedProperty, at));
        },
    };
    Ok((rest, name, Dist { pathname, provides, requirements }))
}

} // verus!
