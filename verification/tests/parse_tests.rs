use abc::NamedRange;
use abc::NamedRangeList;
use abc::RangedEnum;

#[test]
fn parse_one_range() {
    let ranged: NamedRange = NamedRange::parse_str("Foo: 1..10").unwrap();

    assert_eq!(
        ranged,
        NamedRange {
            name: "Foo".to_string(),
            start: 1,
            end: Some(10),
        }
    );

    let ranged: NamedRange = NamedRange::parse_str("Foo: 7").unwrap();
    assert_eq!(
        ranged,
        NamedRange {
            name: "Foo".to_string(),
            start: 7,
            end: None,
        }
    );
}

#[test]
fn parse_range_list() {
    let ranges: NamedRangeList = NamedRangeList::parse_str("Foo: 1..10, Bar: 11").unwrap();

    assert_eq!(
        ranges.list,
        vec![
            NamedRange {
                name: "Foo".to_string(),
                start: 1,
                end: Some(10),
            },
            NamedRange {
                name: "Bar".to_string(),
                start: 11,
                end: None,
            }
        ]
    );
}

#[test]
fn parse_ranges() {
    let ranged: RangedEnum = RangedEnum::parse_str("MyRanges { Foo: 1..10, Bar: 11 }").unwrap();
    assert_eq!(ranged.name, "MyRanges");
    assert_eq!(
        ranged.variants.list,
        vec![
            NamedRange {
                name: "Foo".to_string(),
                start: 1,
                end: Some(10),
            },
            NamedRange {
                name: "Bar".to_string(),
                start: 11,
                end: None,
            }
        ]
    );
}

#[test]
fn trailing_comma_accepted() {
    let a = NamedRangeList::parse_str("Foo: 1..10, Bar: 11").unwrap();
    let b = NamedRangeList::parse_str("Foo: 1..10, Bar: 11,").unwrap();
    assert_eq!(a, b);

    let empty = NamedRangeList::parse_str("").unwrap();
    assert_eq!(empty.list.len(), 0);
}

#[test]
fn syntax_errors() {
    // once the dots are seen, the second integer is mandatory
    let e = NamedRange::parse_str("Foo: 1..").unwrap_err();
    assert_eq!(e.pos, 8);

    // missing colon
    let e = NamedRange::parse_str("Foo 1").unwrap_err();
    assert_eq!(e.pos, 4);

    // missing integer
    let e = NamedRange::parse_str("Foo:").unwrap_err();
    assert_eq!(e.pos, 4);

    // missing braces
    let e = RangedEnum::parse_str("MyRanges").unwrap_err();
    assert_eq!(e.pos, 8);

    // missing closing brace
    let e = RangedEnum::parse_str("MyRanges { Foo: 1").unwrap_err();
    assert_eq!(e.pos, 17);

    // trailing input after a complete token
    let e = NamedRange::parse_str("Foo: 7 x").unwrap_err();
    assert_eq!(e.pos, 7);

    // a lone comma is not a list
    assert!(NamedRangeList::parse_str(",").is_err());

    // a comma after a trailing comma is not tolerated
    assert!(NamedRangeList::parse_str("Foo: 1,,").is_err());
}

#[test]
fn integer_bounds() {
    let r = NamedRange::parse_str("Big: 18446744073709551615").unwrap();
    assert_eq!(r.start, u64::MAX);

    // one past u64::MAX does not fit
    assert!(NamedRange::parse_str("Big: 18446744073709551616").is_err());
}

#[test]
fn whitespace_between_tokens() {
    let r = NamedRange::parse_str("  Foo :  1 .. 10  ").unwrap();
    assert_eq!(
        r,
        NamedRange {
            name: "Foo".to_string(),
            start: 1,
            end: Some(10),
        }
    );
}

#[test]
fn exotic_whitespace_between_tokens() {
    // the host lexer's whitespace set separates tokens too
    let r = NamedRange::parse_str("Foo:\u{000C}1\u{0085}..\u{2028}10\u{2029}").unwrap();
    assert_eq!(
        r,
        NamedRange {
            name: "Foo".to_string(),
            start: 1,
            end: Some(10),
        }
    );
}

#[test]
fn keywords_are_not_names() {
    // a host-language keyword cannot name a variant or the enum
    let e = NamedRange::parse_str("fn: 1").unwrap_err();
    assert_eq!(e.pos, 0);
    assert!(NamedRange::parse_str("Self: 2..3").is_err());
    assert!(NamedRange::parse_str("_: 1").is_err());
    assert!(RangedEnum::parse_str("Color { struct: 1 }").is_err());
    assert!(RangedEnum::parse_str("enum { A: 1 }").is_err());

    // only whole keywords are rejected, not names containing one
    let r = NamedRange::parse_str("fn2: 1").unwrap();
    assert_eq!(r.name, "fn2");
    let r = NamedRange::parse_str("Selfish: 1").unwrap();
    assert_eq!(r.name, "Selfish");
}

#[test]
fn reversed_bounds_are_not_rejected() {
    // no semantic validation relates the two integers
    let r = NamedRange::parse_str("Odd: 10..1").unwrap();
    assert_eq!(r.start, 10);
    assert_eq!(r.end, Some(1));
}

#[test]
fn annotations_pass_through() {
    let d = RangedEnum::parse_str("#[derive(Debug)] #[non_exhaustive] C { A: 1 }").unwrap();
    assert_eq!(
        d.attributes,
        vec![
            "#[derive(Debug)]".to_string(),
            "#[non_exhaustive]".to_string()
        ]
    );

    // nested brackets stay inside one annotation
    let d = RangedEnum::parse_str("#[doc = [inner[deep]]] C { A: 1 }").unwrap();
    assert_eq!(d.attributes, vec!["#[doc = [inner[deep]]]".to_string()]);

    // a malformed annotation is not itself an error, but the declaration
    // then fails where the type name was expected
    let e = RangedEnum::parse_str("#foo C { A: 1 }").unwrap_err();
    assert_eq!(e.pos, 0);
}

#[test]
fn annotation_string_literals_are_skipped() {
    // a bracket inside a string literal does not close the annotation
    let d = RangedEnum::parse_str("#[doc = \"]\"] C { A: 1 }").unwrap();
    assert_eq!(d.attributes, vec!["#[doc = \"]\"]".to_string()]);

    // backslash escapes inside the string are honoured
    let d = RangedEnum::parse_str("#[doc = \"\\\"]\"] C { A: 1 }").unwrap();
    assert_eq!(d.attributes, vec!["#[doc = \"\\\"]\"]".to_string()]);

    // an unterminated string leaves the annotation malformed; the
    // declaration then fails at the type-name demand
    assert!(RangedEnum::parse_str("#[doc = \"] C { A: 1 }").is_err());
}
