use abc::RangedEnum;
use abc::enum_ranges;
use abc::eval_chain;

#[test]
fn color_round_trip() {
    let d = RangedEnum::parse_str("Color { Blue: 450..495, Green: 495..570, Yellow: 570..590 }")
        .unwrap();
    let chain = d.conversion_chain();
    assert_eq!(eval_chain(&chain, 450).unwrap(), "Blue");
    assert_eq!(eval_chain(&chain, 494).unwrap(), "Blue");
    assert_eq!(eval_chain(&chain, 495).unwrap(), "Green");
    assert_eq!(eval_chain(&chain, 589).unwrap(), "Yellow");
    assert_eq!(eval_chain(&chain, 590).unwrap_err(), 590);
    assert_eq!(eval_chain(&chain, 100000).unwrap_err(), 100000);
}

#[test]
fn overlap_tie_break() {
    let d = RangedEnum::parse_str("LogTen { Zero: 0, Ones: 1..10, Tens: 10..100 }").unwrap();
    assert_eq!(d.convert(0).unwrap(), "Zero");
    assert_eq!(d.convert(9).unwrap(), "Ones");
    assert_eq!(d.convert(10).unwrap(), "Tens");
    assert_eq!(d.convert(101).unwrap_err(), 101);
}

#[test]
fn order_decides_overlap() {
    let d1 = RangedEnum::parse_str("O { A: 0..10, B: 5..15 }").unwrap();
    let d2 = RangedEnum::parse_str("O { B: 5..15, A: 0..10 }").unwrap();
    // 7 lies in both ranges: the earliest-declared one wins
    assert_eq!(d1.convert(7).unwrap(), "A");
    assert_eq!(d2.convert(7).unwrap(), "B");
    // 12 lies only in B
    assert_eq!(d1.convert(12).unwrap(), "B");
    assert_eq!(d2.convert(12).unwrap(), "B");
}

#[test]
fn empty_declaration_always_fails() {
    let d = RangedEnum::parse_str("Empty {}").unwrap();
    assert_eq!(d.variants.list.len(), 0);
    assert_eq!(d.convert(0).unwrap_err(), 0);
    assert_eq!(d.convert(12345).unwrap_err(), 12345);
    assert_eq!(d.convert(u64::MAX).unwrap_err(), u64::MAX);

    let text = enum_ranges("Empty {}").unwrap();
    let expected = "enum Empty {\n}\n\n\
                    impl ::core::convert::TryFrom<u64> for Empty {\n    \
                    type Error = u64;\n\n    \
                    fn try_from(x: u64) -> Result<Self, u64> {\n        \
                    Err(x)\n    }\n}\n";
    assert_eq!(text, expected);
}

#[test]
fn generated_text_exact() {
    let text = enum_ranges(
        "#[derive(PartialEq, Debug)] LogTen { Zero: 0, Ones: 1..10, Tens: 10..100, }",
    )
    .unwrap();
    let expected = "#[derive(PartialEq, Debug)]\n\
                    enum LogTen {\n    Zero,\n    Ones,\n    Tens,\n}\n\n\
                    impl ::core::convert::TryFrom<u64> for LogTen {\n    \
                    type Error = u64;\n\n    \
                    fn try_from(x: u64) -> Result<Self, u64> {\n        \
                    if x == 0 { Ok(LogTen::Zero) }\n        \
                    else if (1..10).contains(&x) { Ok(LogTen::Ones) }\n        \
                    else if (10..100).contains(&x) { Ok(LogTen::Tens) }\n        \
                    else { Err(x) }\n    }\n}\n";
    assert_eq!(text, expected);
}

#[test]
fn single_branch_has_no_leading_else() {
    let text = enum_ranges("One { Only: 3 }").unwrap();
    let expected = "enum One {\n    Only,\n}\n\n\
                    impl ::core::convert::TryFrom<u64> for One {\n    \
                    type Error = u64;\n\n    \
                    fn try_from(x: u64) -> Result<Self, u64> {\n        \
                    if x == 3 { Ok(One::Only) }\n        \
                    else { Err(x) }\n    }\n}\n";
    assert_eq!(text, expected);
}

#[test]
fn enum_ranges_propagates_errors() {
    let e = enum_ranges("Color { Blue: 450.. }").unwrap_err();
    assert_eq!(e.pos, 20);
    assert!(enum_ranges("{ A: 1 }").is_err());
}
