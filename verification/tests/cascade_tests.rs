use edgy::cascade::resolve_style;
use edgy::style::{
    Color, Modifier, Part, Selector, SelectorKind, Style, StyleRule, Tag,
};

fn unset() -> Style {
    Style::default()
}

fn with_bg(c: Color) -> Style {
    let mut s = unset();
    s.background_color = Some(c);
    s
}

const A: Color = Color { red: 10, green: 10, blue: 10 };
const B: Color = Color { red: 20, green: 20, blue: 20 };
const C: Color = Color { red: 30, green: 30, blue: 30 };
const D: Color = Color { red: 40, green: 40, blue: 40 };

#[test]
fn cascade_example() {
    let mut button_style = with_bg(B);
    button_style.color = Some(C);
    let sheet = vec![
        StyleRule::new(Selector::new_root(), with_bg(A)),
        StyleRule::new(Selector::new_tag(Tag::Button), button_style),
        StyleRule::new(
            Selector {
                kind: SelectorKind::Tag(Tag::Button),
                part: Part::Main,
                modifier: Modifier::Focus,
            },
            with_bg(D),
        ),
    ];
    let selectors = [SelectorKind::Tag(Tag::Button)];
    let plain = resolve_style(&selectors, &sheet, Modifier::Normal, Part::Main);
    assert_eq!(plain.background_color, Some(B));
    assert_eq!(plain.color, Some(C));
    let focused = resolve_style(&selectors, &sheet, Modifier::Focus, Part::Main);
    assert_eq!(focused.background_color, Some(D));
    assert_eq!(focused.color, Some(C));
}

#[test]
fn resolution_is_deterministic() {
    let sheet = vec![
        StyleRule::new(Selector::new_root(), with_bg(A)),
        StyleRule::new(Selector::new_tag(Tag::Label), with_bg(B)),
    ];
    let selectors = [SelectorKind::Tag(Tag::Label)];
    let first = resolve_style(&selectors, &sheet, Modifier::Normal, Part::Main);
    let second = resolve_style(&selectors, &sheet, Modifier::Normal, Part::Main);
    assert_eq!(first, second);
}

#[test]
fn no_match_resolves_unset() {
    let sheet = vec![StyleRule::new(Selector::new_tag(Tag::Button), with_bg(B))];
    let selectors = [SelectorKind::Tag(Tag::Label)];
    let resolved = resolve_style(&selectors, &sheet, Modifier::Normal, Part::Main);
    assert_eq!(resolved, Style::default());
}

#[test]
fn class_outranks_tag_and_id_outranks_class() {
    let sheet = vec![
        StyleRule::new(
            Selector {
                kind: SelectorKind::Id(String::from("x")),
                part: Part::Main,
                modifier: Modifier::Normal,
            },
            with_bg(D),
        ),
        StyleRule::new(Selector::new_tag(Tag::Button), with_bg(B)),
        StyleRule::new(
            Selector {
                kind: SelectorKind::Class(String::from("warn")),
                part: Part::Main,
                modifier: Modifier::Normal,
            },
            with_bg(C),
        ),
    ];
    let tag_and_class = [
        SelectorKind::Tag(Tag::Button),
        SelectorKind::Class(String::from("warn")),
    ];
    let resolved = resolve_style(&tag_and_class, &sheet, Modifier::Normal, Part::Main);
    assert_eq!(resolved.background_color, Some(C));
    let all_three = [
        SelectorKind::Tag(Tag::Button),
        SelectorKind::Class(String::from("warn")),
        SelectorKind::Id(String::from("x")),
    ];
    let resolved = resolve_style(&all_three, &sheet, Modifier::Normal, Part::Main);
    assert_eq!(resolved.background_color, Some(D));
}

#[test]
fn later_rule_wins_equal_rank() {
    let sheet = vec![
        StyleRule::new(Selector::new_tag(Tag::Button), with_bg(B)),
        StyleRule::new(Selector::new_tag(Tag::Button), with_bg(C)),
    ];
    let selectors = [SelectorKind::Tag(Tag::Button)];
    let resolved = resolve_style(&selectors, &sheet, Modifier::Normal, Part::Main);
    assert_eq!(resolved.background_color, Some(C));
}

#[test]
fn constrained_rule_applies_only_in_state() {
    let sheet = vec![StyleRule::new(
        Selector {
            kind: SelectorKind::Tag(Tag::Slider),
            part: Part::SliderHandle,
            modifier: Modifier::Drag,
        },
        with_bg(D),
    )];
    let selectors = [SelectorKind::Tag(Tag::Slider)];
    let wrong_part = resolve_style(&selectors, &sheet, Modifier::Drag, Part::Main);
    assert_eq!(wrong_part.background_color, None);
    let wrong_state = resolve_style(&selectors, &sheet, Modifier::Normal, Part::SliderHandle);
    assert_eq!(wrong_state.background_color, None);
    let exact = resolve_style(&selectors, &sheet, Modifier::Drag, Part::SliderHandle);
    assert_eq!(exact.background_color, Some(D));
}

#[test]
fn merge_overwrites_only_set_fields() {
    let mut base = with_bg(A);
    base.padding = Some(3);
    let mut over = unset();
    over.background_color = Some(B);
    base.merge(over);
    assert_eq!(base.background_color, Some(B));
    assert_eq!(base.padding, Some(3));
}

#[test]
fn constrained_rule_outranks_plain_rule() {
    let sheet = vec![
        StyleRule::new(
            Selector {
                kind: SelectorKind::Tag(Tag::Button),
                part: Part::Main,
                modifier: Modifier::Focus,
            },
            with_bg(D),
        ),
        StyleRule::new(Selector::new_tag(Tag::Button), with_bg(B)),
    ];
    let selectors = [SelectorKind::Tag(Tag::Button)];
    let focused = resolve_style(&selectors, &sheet, Modifier::Focus, Part::Main);
    assert_eq!(focused.background_color, Some(D));
    let plain = resolve_style(&selectors, &sheet, Modifier::Normal, Part::Main);
    assert_eq!(plain.background_color, Some(B));
}

#[test]
fn root_seeds_every_resolution() {
    let mut root_style = with_bg(A);
    root_style.padding = Some(7);
    let sheet = vec![
        StyleRule::new(Selector::new_root(), root_style),
        StyleRule::new(Selector::new_tag(Tag::Button), with_bg(B)),
    ];
    let selectors = [SelectorKind::Tag(Tag::Button)];
    let resolved = resolve_style(&selectors, &sheet, Modifier::Normal, Part::Main);
    assert_eq!(resolved.background_color, Some(B));
    assert_eq!(resolved.padding, Some(7));
}

#[test]
fn custom_parts_match_by_name() {
    let sheet = vec![StyleRule::new(
        Selector {
            kind: SelectorKind::Tag(Tag::Gauge),
            part: Part::Custom(String::from("needle")),
            modifier: Modifier::Normal,
        },
        with_bg(C),
    )];
    let selectors = [SelectorKind::Tag(Tag::Gauge)];
    let hit = resolve_style(
        &selectors,
        &sheet,
        Modifier::Normal,
        Part::Custom(String::from("needle")),
    );
    assert_eq!(hit.background_color, Some(C));
    let miss = resolve_style(
        &selectors,
        &sheet,
        Modifier::Normal,
        Part::Custom(String::from("cap")),
    );
    assert_eq!(miss.background_color, None);
}
