use abc::derive_describe_struct;
use abc::file_words;
use abc::struct_name_of;

#[test]
fn test_struct_name() {
    assert_eq!(struct_name_of("Foo").unwrap(), "Foo");
}

#[test]
fn describe_fail() {
    assert!(derive_describe_struct("OhNo").is_err());
    assert!(struct_name_of("OhNo").is_err());
}

#[test]
fn describe_emits_name() {
    let text = derive_describe_struct("Foo").unwrap();
    let expected = "impl DescribeStruct for Foo {\n    \
                    fn struct_name(&self) -> &'static str {\n        \
                    \"Foo\"\n    }\n}\n";
    assert_eq!(text, expected);

    // any name but the reserved one is accepted and returned exactly
    assert_eq!(struct_name_of("OhYes").unwrap(), "OhYes");
    assert_eq!(struct_name_of("ohno").unwrap(), "ohno");
}

#[test]
fn file_words_renders_array() {
    assert_eq!(file_words("hello world"), "[\"hello\", \"world\"]");
    assert_eq!(file_words(""), "[]");
    assert_eq!(file_words("   "), "[]");
    assert_eq!(file_words("  one  "), "[\"one\"]");
    assert_eq!(
        file_words("The turbofish remains undefeated."),
        "[\"The\", \"turbofish\", \"remains\", \"undefeated.\"]"
    );
}

#[test]
fn file_words_splits_on_unicode_whitespace() {
    // vertical tab, form feed, no-break space, line separator and
    // ideographic space all separate words, as the host language's
    // whitespace splitting has it
    assert_eq!(file_words("a\u{000B}b"), "[\"a\", \"b\"]");
    assert_eq!(file_words("a\u{000C}b\u{00A0}c"), "[\"a\", \"b\", \"c\"]");
    assert_eq!(file_words("\u{3000}x\u{2028}y\u{3000}"), "[\"x\", \"y\"]");
}

#[test]
fn file_words_escapes_quotes_and_backslashes() {
    assert_eq!(file_words("say \"hi\""), "[\"say\", \"\\\"hi\\\"\"]");
    assert_eq!(file_words("a\\b"), "[\"a\\\\b\"]");
}
