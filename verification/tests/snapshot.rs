use carton_snapshot::{parse, Dists, ErrorKind, ParseError, PropertyValue};

const HEADER: &str = "# carton snapshot format: version 1.0\nDISTRIBUTIONS\n";

fn with_header(body: &str) -> String {
    format!("{}{}", HEADER, body)
}

fn failure(text: &str) -> ParseError {
    match parse(text) {
        Ok(_) => panic!("the text parsed"),
        Err(e) => e,
    }
}

fn names<'a>(found: &Dists<'a>) -> Vec<&'a str> {
    let mut all = Vec::new();
    for i in 0..found.len() {
        all.push(found.key_at(i));
    }
    all
}

#[test]
fn one_distribution_with_both_sections() {
    let text = "# carton snapshot format: version 1.0\nDISTRIBUTIONS\n  Foo::Bar\n    pathname: F/FO/FOOBAR/Foo-Bar-1.0.tar.gz\n    provides:\n      Foo::Bar 1.0\n    requirements:\n      strict undef\n";
    let found = parse(text).unwrap();
    assert_eq!(found.len(), 1);
    assert_eq!(names(&found), vec!["Foo::Bar"]);
    let record = found.get("Foo::Bar").unwrap();
    assert_eq!(record.pathname, "F/FO/FOOBAR/Foo-Bar-1.0.tar.gz");
    let provides = record.provides.as_ref().unwrap();
    assert_eq!(provides.len(), 1);
    assert_eq!(provides.get("Foo::Bar"), Some(&PropertyValue::VersionSpec("1.0")));
    let requirements = record.requirements.as_ref().unwrap();
    assert_eq!(requirements.len(), 1);
    assert_eq!(requirements.get("strict"), Some(&PropertyValue::Undefined));
    assert_eq!(requirements.get("Foo::Bar"), None);
}

#[test]
fn missing_distributions_line_is_a_header_mismatch() {
    let text = "# carton snapshot format: version 1.0\n  Foo\n    pathname: F/Foo.tar.gz\n";
    assert_eq!(
        parse(text).err(),
        Some(ParseError { kind: ErrorKind::HeaderMismatch, offset: 38 })
    );
}

#[test]
fn wrong_first_line_is_a_header_mismatch_at_the_start() {
    let text = "# carton snapshot format: version 2.0\nDISTRIBUTIONS\n";
    assert_eq!(failure(text), ParseError { kind: ErrorKind::HeaderMismatch, offset: 0 });
    assert_eq!(failure(""), ParseError { kind: ErrorKind::HeaderMismatch, offset: 0 });
}

#[test]
fn repeated_name_keeps_the_later_distribution() {
    let text = with_header(
        "  Dup\n    pathname: first/path.tar.gz\n    provides:\n      Dup 1\n  Dup\n    pathname: second/path.tar.gz\n",
    );
    let found = parse(&text).unwrap();
    assert_eq!(found.len(), 1);
    let record = found.get("Dup").unwrap();
    assert_eq!(record.pathname, "second/path.tar.gz");
    assert!(record.provides.is_none());
    assert!(record.requirements.is_none());
}

#[test]
fn count_is_the_number_of_distinct_names() {
    let text = with_header(
        "  A\n    pathname: a1\n  B\n    pathname: b1\n  A\n    pathname: a2\n  C\n    pathname: c1\n",
    );
    let found = parse(&text).unwrap();
    assert_eq!(found.len(), 3);
    assert_eq!(names(&found), vec!["A", "B", "C"]);
    assert_eq!(found.get("A").unwrap().pathname, "a2");
    assert_eq!(found.get("B").unwrap().pathname, "b1");
    assert_eq!(found.get("C").unwrap().pathname, "c1");
    assert!(found.contains_key("B"));
    assert!(!found.contains_key("D"));
    assert_eq!(found.value_at(0).pathname, "a2");
}

#[test]
fn header_alone_is_an_empty_snapshot() {
    let found = parse(HEADER).unwrap();
    assert_eq!(found.len(), 0);
    assert!(found.is_empty());
    assert!(found.get("Foo").is_none());
}

#[test]
fn distribution_without_sections_has_neither() {
    let text = with_header("  Foo\n    pathname: F/Foo.tar.gz\n");
    let found = parse(&text).unwrap();
    let record = found.get("Foo").unwrap();
    assert_eq!(record.pathname, "F/Foo.tar.gz");
    assert!(record.provides.is_none());
    assert!(record.requirements.is_none());
}

#[test]
fn section_without_lines_is_present_and_empty() {
    let text = with_header("  Foo\n    pathname: F/Foo.tar.gz\n    provides:\n");
    let found = parse(&text).unwrap();
    let record = found.get("Foo").unwrap();
    let provides = record.provides.as_ref().unwrap();
    assert!(provides.is_empty());
    assert_eq!(provides.len(), 0);
    assert!(record.requirements.is_none());

    let text = with_header(
        "  Foo\n    pathname: F/Foo.tar.gz\n    provides:\n    requirements:\n  Bar\n    pathname: B\n",
    );
    let found = parse(&text).unwrap();
    assert_eq!(found.len(), 2);
    let record = found.get("Foo").unwrap();
    assert!(record.provides.as_ref().unwrap().is_empty());
    assert!(record.requirements.as_ref().unwrap().is_empty());
}

#[test]
fn requirements_alone_are_accepted() {
    let text = with_header("  Foo\n    pathname: F/Foo.tar.gz\n    requirements:\n      perl 5.008001\n");
    let found = parse(&text).unwrap();
    let record = found.get("Foo").unwrap();
    assert!(record.provides.is_none());
    let requirements = record.requirements.as_ref().unwrap();
    assert_eq!(requirements.get("perl"), Some(&PropertyValue::VersionSpec("5.008001")));
}

#[test]
fn requirements_before_provides_are_refused() {
    let body = "  Foo\n    pathname: F/Foo.tar.gz\n    requirements:\n      perl 5\n    provides:\n      Foo 1\n";
    let text = with_header(body);
    let offset = HEADER.len() + "  Foo\n    pathname: F/Foo.tar.gz\n    requirements:\n      perl 5\n".len();
    assert_eq!(failure(&text), ParseError { kind: ErrorKind::TrailingInput, offset });
}

#[test]
fn undef_is_undefined_and_other_values_are_kept_as_written() {
    let text = with_header(
        "  Foo\n    pathname: F/Foo.tar.gz\n    provides:\n      a undef\n      b v1.2.3\n      c >=1.2,<2.0\n      d 0\n      e !=1_000\n",
    );
    let found = parse(&text).unwrap();
    let provides = found.get("Foo").unwrap().provides.as_ref().unwrap();
    assert_eq!(provides.len(), 5);
    assert_eq!(provides.get("a"), Some(&PropertyValue::Undefined));
    assert_eq!(provides.get("b"), Some(&PropertyValue::VersionSpec("v1.2.3")));
    assert_eq!(provides.get("c"), Some(&PropertyValue::VersionSpec(">=1.2,<2.0")));
    assert_eq!(provides.get("d"), Some(&PropertyValue::VersionSpec("0")));
    assert_eq!(provides.get("e"), Some(&PropertyValue::VersionSpec("!=1_000")));
}

#[test]
fn repeated_key_keeps_the_later_value() {
    let text = with_header(
        "  Foo\n    pathname: F/Foo.tar.gz\n    provides:\n      k 1\n      other 2\n      k undef\n",
    );
    let found = parse(&text).unwrap();
    let provides = found.get("Foo").unwrap().provides.as_ref().unwrap();
    assert_eq!(provides.len(), 2);
    assert_eq!(provides.get("k"), Some(&PropertyValue::Undefined));
    assert_eq!(provides.get("other"), Some(&PropertyValue::VersionSpec("2")));
    assert_eq!(provides.key_at(0), "k");
    assert_eq!(provides.key_at(1), "other");
}

#[test]
fn several_spaces_and_tabs_before_a_version_are_skipped() {
    let text = with_header(
        "  Foo\n    pathname: F/Foo.tar.gz\n    provides:\n      a    1.0\n      b \t 2.0\n      c   undef\n",
    );
    let found = parse(&text).unwrap();
    let provides = found.get("Foo").unwrap().provides.as_ref().unwrap();
    assert_eq!(provides.get("a"), Some(&PropertyValue::VersionSpec("1.0")));
    assert_eq!(provides.get("b"), Some(&PropertyValue::VersionSpec("2.0")));
    assert_eq!(provides.get("c"), Some(&PropertyValue::Undefined));
}

#[test]
fn missing_pathname_is_a_malformed_distribution() {
    let text = with_header("  Foo\n    provides:\n      Foo 1\n");
    assert_eq!(
        failure(&text),
        ParseError { kind: ErrorKind::MalformedDistribution, offset: HEADER.len() + 6 }
    );
    let text = with_header("  Foo\n");
    assert_eq!(
        failure(&text),
        ParseError { kind: ErrorKind::MalformedDistribution, offset: HEADER.len() + 6 }
    );
    let text = with_header("  Foo\n    pathname: no line ending");
    assert_eq!(
        failure(&text),
        ParseError { kind: ErrorKind::MalformedDistribution, offset: HEADER.len() + 6 }
    );
    let text = with_header("  Foo\n    pathname:F\n");
    assert_eq!(
        failure(&text),
        ParseError { kind: ErrorKind::MalformedDistribution, offset: HEADER.len() + 6 }
    );
}

#[test]
fn wrong_indentation_is_refused() {
    let text = with_header(" Foo\n    pathname: F\n");
    assert_eq!(
        failure(&text),
        ParseError { kind: ErrorKind::TrailingInput, offset: HEADER.len() }
    );
    let text = with_header("   Foo\n    pathname: F\n");
    assert_eq!(
        failure(&text),
        ParseError { kind: ErrorKind::TrailingInput, offset: HEADER.len() }
    );
    let text = with_header("  Foo\n   pathname: F\n");
    assert_eq!(
        failure(&text),
        ParseError { kind: ErrorKind::MalformedDistribution, offset: HEADER.len() + 6 }
    );
    let text = with_header("  Foo\n    pathname: F\n    provides:\n     Foo 1\n");
    assert_eq!(
        failure(&text),
        ParseError { kind: ErrorKind::TrailingInput, offset: HEADER.len() + 36 }
    );
}

#[test]
fn tab_in_place_of_a_space_is_refused() {
    let text = with_header("\tFoo\n    pathname: F\n");
    assert_eq!(
        failure(&text),
        ParseError { kind: ErrorKind::TrailingInput, offset: HEADER.len() }
    );
    let text = with_header("  Foo\n\tpathname: F\n");
    assert_eq!(
        failure(&text),
        ParseError { kind: ErrorKind::MalformedDistribution, offset: HEADER.len() + 6 }
    );
    let text = with_header("  Foo\n    pathname: F\n    provides:\n      Foo\t1\n");
    assert_eq!(
        failure(&text),
        ParseError { kind: ErrorKind::MalformedProperty, offset: HEADER.len() + 36 }
    );
}

#[test]
fn malformed_property_lines_are_refused() {
    let start = "  Foo\n    pathname: F\n    provides:\n      ok 1\n";
    let offset = HEADER.len() + start.len();
    for line in [
        "      key\n",
        "      key \n",
        "      key 1.0 extra\n",
        "      key 1.0",
        "      key abc\n",
        "      key undefined\n",
        "      key \tundef\n",
        "      -key 1\n",
        "       key 1\n",
        "      \n",
    ] {
        let text = with_header(&format!("{}{}", start, line));
        assert_eq!(
            failure(&text),
            ParseError { kind: ErrorKind::MalformedProperty, offset },
            "line {:?}",
            line
        );
    }
}

#[test]
fn text_after_the_last_distribution_is_refused() {
    let body = "  Foo\n    pathname: F\n";
    let offset = HEADER.len() + body.len();
    for rest in ["\n", "junk\n", " ", "    provides\n", "  Foo bar\n", "  Foo"] {
        let text = with_header(&format!("{}{}", body, rest));
        assert_eq!(
            failure(&text),
            ParseError { kind: ErrorKind::TrailingInput, offset },
            "rest {:?}",
            rest
        );
    }
}

#[test]
fn carriage_return_line_endings_are_accepted_after_tokens() {
    let text = with_header("  Foo\r\n    pathname: F\r\n    provides:\n      Foo 1.0\r\n");
    let found = parse(&text).unwrap();
    let record = found.get("Foo").unwrap();
    assert_eq!(record.pathname, "F\r");
    let provides = record.provides.as_ref().unwrap();
    assert_eq!(provides.get("Foo"), Some(&PropertyValue::VersionSpec("1.0")));

    let text = with_header("  Foo\n    pathname: F\n    provides:\r\n");
    assert_eq!(
        failure(&text),
        ParseError { kind: ErrorKind::TrailingInput, offset: HEADER.len() + 22 }
    );
}

#[test]
fn pathname_may_hold_spaces_and_be_empty() {
    let text = with_header("  Foo\n    pathname: a b  c \n  Bar\n    pathname: \n");
    let found = parse(&text).unwrap();
    assert_eq!(found.get("Foo").unwrap().pathname, "a b  c ");
    assert_eq!(found.get("Bar").unwrap().pathname, "");
}

#[test]
fn letters_and_digits_of_any_script_are_key_characters() {
    let text = with_header(
        "  Ünï::Cödé\n    pathname: ü/path\n    provides:\n      Größe::λ_1 ٣.1\n      naïve undef\n",
    );
    let found = parse(&text).unwrap();
    let record = found.get("Ünï::Cödé").unwrap();
    assert_eq!(record.pathname, "ü/path");
    let provides = record.provides.as_ref().unwrap();
    assert_eq!(provides.get("Größe::λ_1"), Some(&PropertyValue::VersionSpec("٣.1")));
    assert_eq!(provides.get("naïve"), Some(&PropertyValue::Undefined));
}

#[test]
fn offset_counts_bytes_not_characters() {
    let body = "  Ünï\n    pathname: ü\n";
    let text = with_header(&format!("{}junk", body));
    assert_eq!(body.len(), 25);
    assert_eq!(body.chars().count(), 22);
    assert_eq!(
        failure(&text),
        ParseError { kind: ErrorKind::TrailingInput, offset: HEADER.len() + 25 }
    );
}

#[test]
fn unicode_whitespace_ends_a_name() {
    let text = with_header("  Foo\u{a0}Bar\n    pathname: F\n");
    assert_eq!(
        failure(&text),
        ParseError { kind: ErrorKind::TrailingInput, offset: HEADER.len() }
    );
}

#[test]
fn results_are_slices_of_the_input() {
    let text = with_header("  Foo\n    pathname: F/Foo.tar.gz\n    provides:\n      Foo 1.0\n");
    let found = parse(&text).unwrap();
    let range = text.as_ptr() as usize..text.as_ptr() as usize + text.len();
    let name = found.key_at(0);
    assert!(range.contains(&(name.as_ptr() as usize)));
    let record = found.get("Foo").unwrap();
    assert!(range.contains(&(record.pathname.as_ptr() as usize)));
    let provides = record.provides.as_ref().unwrap();
    assert!(range.contains(&(provides.key_at(0).as_ptr() as usize)));
    match provides.value_at(0) {
        PropertyValue::VersionSpec(v) => assert!(range.contains(&(v.as_ptr() as usize))),
        PropertyValue::Undefined => panic!("a version was expected"),
    }
}
