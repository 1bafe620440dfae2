use edgy::selector::{
    parse, AttributeOperator, Selector, SelectorKindInfo, SelectorToken, SelectorTokenizer,
};

#[test]
fn tokenizer_walkthrough() {
    let mut t = SelectorTokenizer::new("div > p:first-child");
    assert_eq!(
        t.next_token().unwrap().unwrap(),
        SelectorToken::TypeSelector(String::from("div"))
    );
    assert_eq!(t.next_token().unwrap().unwrap(), SelectorToken::ChildCombinator);
    assert_eq!(
        t.next_token().unwrap().unwrap(),
        SelectorToken::TypeSelector(String::from("p"))
    );
    assert_eq!(
        t.next_token().unwrap().unwrap(),
        SelectorToken::PseudoClass(String::from("first-child"))
    );
    assert!(t.next_token().is_none());
}

#[test]
fn tokenizer_attribute_forms() {
    let mut t = SelectorTokenizer::new("[color=red][a][b~='x y'][c|=z]");
    assert_eq!(
        t.next_token().unwrap().unwrap(),
        SelectorToken::AttributeSelector(
            String::from("color"),
            AttributeOperator::Matches(String::from("red"))
        )
    );
    assert_eq!(
        t.next_token().unwrap().unwrap(),
        SelectorToken::AttributeSelector(String::from("a"), AttributeOperator::Exists)
    );
    assert_eq!(
        t.next_token().unwrap().unwrap(),
        SelectorToken::AttributeSelector(
            String::from("b"),
            AttributeOperator::Contains(String::from("x y"))
        )
    );
    assert_eq!(
        t.next_token().unwrap().unwrap(),
        SelectorToken::AttributeSelector(
            String::from("c"),
            AttributeOperator::StartsWith(String::from("z"))
        )
    );
    assert!(t.next_token().is_none());
}

#[test]
fn selector_round_trip() {
    for text in ["div", "div > p:first-child", ".danger", "#main", "[color=red]"] {
        let first = Selector::parse(text).expect("the selector should parse");
        let rendered = first.to_selector_string();
        let second = Selector::parse(&rendered).expect("the rendered selector should reparse");
        assert_eq!(first, second, "round trip of {text} via {rendered}");
    }
}

#[test]
fn specificity_weights() {
    assert_eq!(Selector::parse("#main").unwrap().specificity(), [1, 0, 0]);
    assert_eq!(Selector::parse(".danger").unwrap().specificity(), [0, 1, 0]);
    assert_eq!(Selector::parse("div").unwrap().specificity(), [0, 0, 1]);
    assert_eq!(Selector::parse("div > p:first-child").unwrap().specificity(), [0, 1, 2]);
    assert_eq!(Selector::parse("[color=red]").unwrap().specificity(), [0, 1, 0]);
    assert_eq!(Selector::parse("div#a.b.c:hover").unwrap().specificity(), [1, 3, 1]);
}

#[test]
fn selector_accessors() {
    let s = Selector::parse("div.foo.bar:hover").unwrap();
    assert_eq!(s.tag_name(), Some(String::from("div")));
    assert_eq!(s.class_list(), vec![String::from("foo"), String::from("bar")]);
    assert_eq!(s.pseudo_classes(), vec![String::from("hover")]);
}

#[test]
fn selector_kind() {
    match Selector::parse("div").unwrap().kind() {
        Ok(SelectorKindInfo::Tag(t)) => assert_eq!(t, "div"),
        other => panic!("expected a tag kind, got {other:?}"),
    }
    match Selector::parse(".danger").unwrap().kind() {
        Ok(SelectorKindInfo::Class(c)) => assert_eq!(c, "danger"),
        other => panic!("expected a class kind, got {other:?}"),
    }
    assert!(Selector::parse("div.foo").unwrap().kind().is_err());
    assert!(Selector::parse("*").unwrap().kind().is_err());
}

#[test]
fn attribute_operator_matching() {
    assert!(AttributeOperator::Exists.matches("anything"));
    assert!(AttributeOperator::Matches(String::from("red")).matches("red"));
    assert!(!AttributeOperator::Matches(String::from("red")).matches("redder"));
    let contains = AttributeOperator::Contains(String::from("b"));
    assert!(contains.matches("a b c"));
    assert!(!contains.matches("ab c"));
    assert!(contains.matches("b"));
    let starts = AttributeOperator::StartsWith(String::from("foo"));
    assert!(starts.matches("foo"));
    assert!(starts.matches("foo-bar"));
    assert!(!starts.matches("foobar"));
    assert!(!starts.matches("fo"));
}

#[test]
fn parse_failures() {
    assert!(Selector::parse("> div").is_none());
    assert!(Selector::parse("").is_none());
    assert!(Selector::parse("[unterminated").is_none());
    assert!(Selector::parse("div p p2").is_some());
    let (sel, consumed) = parse("div, p");
    assert!(sel.is_some());
    assert_eq!(consumed, 3);
}

#[test]
fn parse_stops_at_brace() {
    let (sel, consumed) = parse("div { background: black; }");
    let sel = sel.expect("the selector before the brace should parse");
    assert_eq!(sel.tag_name(), Some(String::from("div")));
    assert_eq!(consumed, 4);
}

#[test]
fn comments_and_universal() {
    let s = Selector::parse("/* note */ *.bright").expect("comment then selector");
    assert_eq!(s.tag_name(), None);
    assert_eq!(s.class_list(), vec![String::from("bright")]);
}
