use prosidy::error::{decimal_string, recover, Error, ErrorKind, Location, Rule};
use prosidy::parse::{Pair, Pairs};

#[test]
fn recover_turns_only_soft_failures_into_none() {
    let ok: Result<u8, Error> = Ok(3);
    assert_eq!(recover(ok).unwrap(), Some(3));
    let soft: Result<u8, Error> = Err(Error::new(ErrorKind::NoMatch));
    assert_eq!(recover(soft).unwrap(), None);
    let hard: Result<u8, Error> = Err(Error::new(ErrorKind::InvalidEscape(String::from("\\z"))));
    assert_eq!(recover(hard).unwrap_err().kind, ErrorKind::InvalidEscape(String::from("\\z")));
}

#[test]
fn annotations_accumulate_innermost_first() {
    let e = Error::new(ErrorKind::NoMatch).annotate(Rule::Key, 1, 2).annotate(Rule::BlockTag, 0, 9);
    assert_eq!(
        e.spans,
        vec![
            Location { rule: Rule::Key, start: 1, end: 2 },
            Location { rule: Rule::BlockTag, start: 0, end: 9 },
        ]
    );
    assert!(e.is_no_match());
}

#[test]
fn trailing_error_only_for_leftovers() {
    assert!(Error::trailing(vec![]).is_none());
    let e = Error::trailing(vec![Rule::EOI]).unwrap();
    assert_eq!(e.kind, ErrorKind::Trailing(vec![Rule::EOI]));
}

#[test]
fn cursor_takes_matching_rules_only() {
    let items = vec![Pair { rule: Rule::Key, start: 0, end: 1, text: "k", inner: vec![] }];
    let mut cursor = Pairs::new(&items);
    assert!(cursor.rule(Rule::Literal).unwrap_err().is_no_match());
    assert_eq!(cursor.pos, 0);
    assert_eq!(cursor.assert_empty().unwrap_err().kind, ErrorKind::Trailing(vec![Rule::Key]));
    assert_eq!(cursor.rule(Rule::Key).unwrap().text, "k");
    assert_eq!(cursor.pos, 1);
    assert!(cursor.assert_empty().is_ok());
    assert!(cursor.rule(Rule::Key).is_err());
}

#[test]
fn malformed_tag_is_a_hard_error_with_trace() {
    let tag = Pair {
        rule: Rule::BlockTag,
        start: 0,
        end: 4,
        text: "#t{}",
        inner: vec![
            Pair { rule: Rule::Key, start: 1, end: 2, text: "t", inner: vec![] },
            Pair { rule: Rule::EOI, start: 2, end: 2, text: "", inner: vec![] },
        ],
    };
    let doc = vec![Pair {
        rule: Rule::Document,
        start: 0,
        end: 4,
        text: "#t{}",
        inner: vec![tag, Pair { rule: Rule::EOI, start: 4, end: 4, text: "", inner: vec![] }],
    }];
    let err = prosidy::parse::parse_document(&doc).unwrap_err();
    assert_eq!(err.kind, ErrorKind::Trailing(vec![Rule::EOI]));
    assert_eq!(err.spans[0], Location { rule: Rule::BlockTag, start: 0, end: 4 });
    assert_eq!(err.spans[1], Location { rule: Rule::Document, start: 0, end: 4 });
}

#[test]
fn message_reports_kind_and_trace() {
    let e = Error::new(ErrorKind::InvalidEscape(String::from("\\q")))
        .annotate(Rule::EscapedPlainText, 7, 9)
        .annotate(Rule::Paragraph, 0, 120);
    assert_eq!(
        e.message(),
        "Invalid escape sequence \\q\ntrace:\n    in rule EscapedPlainText, 7-9\n    in rule Paragraph, 0-120\n"
    );
    let t = Error::trailing(vec![Rule::PlainText, Rule::EOI]).unwrap();
    assert_eq!(t.message(), "Trailing rules: [PlainText, EOI]\n");
    assert_eq!(Error::new(ErrorKind::NoMatch).message(), "No match.\n");
}

#[test]
fn decimal_digits() {
    assert_eq!(decimal_string(0), "0");
    assert_eq!(decimal_string(7), "7");
    assert_eq!(decimal_string(10), "10");
    assert_eq!(decimal_string(9051), "9051");
    assert_eq!(decimal_string(usize::MAX), usize::MAX.to_string());
}
