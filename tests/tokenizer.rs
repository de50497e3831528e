use markup_parser::{TokenKind, Tokenizer};

#[test]
fn basic() {
    let source = "
            <html>
            <head>
                <title>Hello</title>
            </head>
            <body>
                Welcome to my website!
            </body>
            </html>
            ";
    let mut tokenizer = Tokenizer::new(&source);
    let expected_kinds = vec![
        TokenKind::Text {
            text: "\n            ",
        },
        TokenKind::TagName { name: "html" },
        TokenKind::OpeningTagEnd,
        TokenKind::Text {
            text: "\n            ",
        },
        TokenKind::TagName { name: "head" },
        TokenKind::OpeningTagEnd,
        TokenKind::Text {
            text: "\n                ",
        },
        TokenKind::TagName { name: "title" },
        TokenKind::OpeningTagEnd,
        TokenKind::Text { text: "Hello" },
        TokenKind::TagEnd { name: "title" },
        TokenKind::Text {
            text: "\n            ",
        },
        TokenKind::TagEnd { name: "head" },
        TokenKind::Text {
            text: "\n            ",
        },
        TokenKind::TagName { name: "body" },
        TokenKind::OpeningTagEnd,
        TokenKind::Text {
            text: "\n                Welcome to my website!\n            ",
        },
        TokenKind::TagEnd { name: "body" },
        TokenKind::Text {
            text: "\n            ",
        },
        TokenKind::TagEnd { name: "html" },
        TokenKind::Text {
            text: "\n            ",
        },
    ];
    for (i, k) in expected_kinds.iter().enumerate() {
        let got_token = tokenizer
            .next()
            .expect(&format!("Token to exist. iteration: {i}"));
        assert_eq!((i, &got_token.kind), (i, k));
    }
    assert!(tokenizer.next().is_none());
}

#[test]
fn attrib_basic() {
    let s = "<tag-name attr-name=attr-value>";
    let expected_kinds = vec![
        TokenKind::TagName { name: "tag-name" },
        TokenKind::AttributeName { name: "attr-name" },
        TokenKind::AttributeValue {
            value: "attr-value",
        },
        TokenKind::OpeningTagEnd,
    ];
    let mut tokenizer = Tokenizer::new(&s);
    for (i, k) in expected_kinds.iter().enumerate() {
        let got = tokenizer.next().expect("should exist");
        assert_eq!((i, &got.kind), (i, k));
    }
}

#[test]
fn attrib_without_equals() {
    let s = "<tag-name attr-name>";
    let expected_kinds = vec![
        TokenKind::TagName { name: "tag-name" },
        TokenKind::AttributeName { name: "attr-name" },
        TokenKind::AttributeValue { value: "" },
        TokenKind::OpeningTagEnd,
    ];
    let mut tokenizer = Tokenizer::new(&s);
    for (i, k) in expected_kinds.into_iter().enumerate() {
        let got = tokenizer.next().map(|g| g.kind);
        assert_eq!((i, got), (i, Some(k)));
    }
}

#[test]
fn attrib_quoted() {
    let s = "<tag-name attr-name=\"double quoted 'value' lets go >>> awesome\">";
    let expected_kinds = vec![
        TokenKind::TagName { name: "tag-name" },
        TokenKind::AttributeName { name: "attr-name" },
        TokenKind::AttributeValue {
            value: "double quoted 'value' lets go >>> awesome",
        },
        TokenKind::OpeningTagEnd,
    ];
    let mut tokenizer = Tokenizer::new(&s);
    for (i, k) in expected_kinds.into_iter().enumerate() {
        let got = tokenizer.next().map(|g| g.kind);
        assert_eq!((i, got), (i, Some(k)));
    }
}

#[test]
fn attrib_multiple() {
    let s = "<tag-name attr-name1 attr-name2=attr-val>";
    let expected_kinds = vec![
        TokenKind::TagName { name: "tag-name" },
        TokenKind::AttributeName { name: "attr-name1" },
        TokenKind::AttributeValue { value: "" },
        TokenKind::AttributeName { name: "attr-name2" },
        TokenKind::AttributeValue { value: "attr-val" },
        TokenKind::OpeningTagEnd,
    ];
    let mut tokenizer = Tokenizer::new(&s);
    for (i, k) in expected_kinds.into_iter().enumerate() {
        let got = tokenizer.next().map(|g| g.kind);
        assert_eq!((i, got), (i, Some(k)));
    }
}

#[test]
fn tag_name_with_dashes() {
    let s = "<custom-element>";
    let mut tokenizer = Tokenizer::new(&s);
    let token = tokenizer.next().expect("should exist");
    assert_eq!(
        token.kind,
        TokenKind::TagName {
            name: "custom-element"
        }
    );
}

#[test]
fn empty_attribute_value_quoted() {
    let s = "<tag attr=\"\">";
    let mut tokenizer = Tokenizer::new(&s);
    tokenizer.next(); // tag
    tokenizer.next(); // attr name
    let token = tokenizer.next().expect("should exist");
    assert_eq!(token.kind, TokenKind::AttributeValue { value: "" });
    assert_eq!(
        tokenizer.next().map(|t| t.kind),
        Some(TokenKind::OpeningTagEnd)
    );
}

#[test]
fn attribute_value_with_mixed_quotes() {
    let s = "<tag attr=\" He said 'hello' \">";
    let mut tokenizer = Tokenizer::new(&s);
    tokenizer.next(); // tag
    tokenizer.next(); // attr name
    let token = tokenizer.next().expect("should exist");
    assert_eq!(
        token.kind,
        TokenKind::AttributeValue {
            value: " He said 'hello' "
        }
    );
}

#[test]
fn self_closing_tag() {
    let s = "<tag/>"; // not valid html but still
    let mut tokenizer = Tokenizer::new(&s);
    let tag_name = tokenizer.next().expect("should exist");
    assert_eq!(tag_name.kind, TokenKind::TagName { name: "tag" });
    let tag_end = tokenizer.next().expect("should exist");
    assert_eq!(tag_end.kind, TokenKind::OpeningTagEnd);
}

#[test]
fn self_closing_tag_with_attributes() {
    let s = "<tag a b c=d/>"; // not valid html but still
    let mut tokenizer = Tokenizer::new(&s);
    let tag_name = tokenizer.next().expect("should exist");
    assert_eq!(tag_name.kind, TokenKind::TagName { name: "tag" });
    let attrib_a = tokenizer.next().expect("should exist");
    assert_eq!(attrib_a.kind, TokenKind::AttributeName { name: "a" });
    let attrib_value_a = tokenizer.next().expect("should exist");
    assert_eq!(attrib_value_a.kind, TokenKind::AttributeValue { value: "" });
    let attrib_b = tokenizer.next().expect("should exist");
    assert_eq!(attrib_b.kind, TokenKind::AttributeName { name: "b" });
    let attrib_value_b = tokenizer.next().expect("should exist");
    assert_eq!(attrib_value_b.kind, TokenKind::AttributeValue { value: "" });
    let attrib_c = tokenizer.next().expect("should exist");
    assert_eq!(attrib_c.kind, TokenKind::AttributeName { name: "c" });
    let attrib_value_c = tokenizer.next().expect("should exist");
    assert_eq!(
        attrib_value_c.kind,
        TokenKind::AttributeValue { value: "d" }
    );
    let tag_end = tokenizer.next().expect("should exist");
    assert_eq!(tag_end.kind, TokenKind::OpeningTagEnd);
}

#[test]
fn attribute_name_starts_with_number() {
    let s = "<tag 1attr=value>";
    let mut tokenizer = Tokenizer::new(&s);
    tokenizer.next();
    let token = tokenizer.next().expect("should exist");
    assert_eq!(token.kind, TokenKind::AttributeName { name: "1attr" });
}

#[test]
fn attribute_with_no_value_and_then_another_attribute_with_value() {
    let s = "<tag attr1 attr2=value2>";
    let mut tokenizer = Tokenizer::new(&s);

    tokenizer.next(); // tag
    assert_eq!(
        tokenizer.next().unwrap().kind,
        TokenKind::AttributeName { name: "attr1" }
    );
    assert_eq!(
        tokenizer.next().unwrap().kind,
        TokenKind::AttributeValue { value: "" }
    );
    assert_eq!(
        tokenizer.next().unwrap().kind,
        TokenKind::AttributeName { name: "attr2" }
    );
    assert_eq!(
        tokenizer.next().unwrap().kind,
        TokenKind::AttributeValue { value: "value2" }
    );
}
