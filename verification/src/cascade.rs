//! Cascade resolution: matching a sheet's rules against a widget's
//! selector identity and folding the matched styles, higher-ranked
//! rules winning, later rules winning ties.
use vstd::prelude::*;

use crate::style::{
    Color, FontMetrics, Modifier, Part, PartModel, Selector, SelectorKind, SelectorKindModel,
    SelectorSpec, Style, StyleRule, StyleRuleModel, TextAlignment, sheet_model,
};

verus! {

/// The rank weight of a selector kind: id beats class beats tag
/// beats root.
pub open spec fn kind_weight(k: SelectorKindModel) -> int {
    match k {
        SelectorKindModel::Root => 0,
        SelectorKindModel::Tag(_) => 1,
        SelectorKindModel::Class(_) => 10,
        SelectorKindModel::Id(_) => 100,
    }
}

/// The rank of a rule selector: its kind weight, plus one for a
/// modifier constraint, plus one for a part constraint.  The rank is
/// a single sum, not a per-axis tuple.
pub open spec fn spec_rank(s: SelectorSpec) -> int {
    kind_weight(s.kind) + (if s.modifier != Modifier::Normal {
        1int
    } else {
        0int
    }) + (if !(s.part is Main) {
        1int
    } else {
        0int
    })
}

/// Whether a rule selector applies to a widget that offers
/// `selectors`, in state `modifier`, for the drawn `part`.  A rule
/// without a modifier or part constraint applies regardless of the
/// state; one with a constraint applies only when that exact state
/// is current.
pub open spec fn spec_matches(
    s: SelectorSpec,
    selectors: Seq<SelectorKindModel>,
    modifier: Modifier,
    part: PartModel,
) -> bool {
    selectors.contains(s.kind) && (s.modifier == Modifier::Normal || s.modifier == modifier) && (
    s.part is Main || s.part == part)
}

/// The style of the first `Root` rule of the sheet, whatever its
/// modifier and part.
pub open spec fn spec_first_root(rules: Seq<StyleRuleModel>) -> Option<Style>
    decreases rules.len(),
{
    if rules.len() == 0 {
        None
    } else if rules[0].selector.kind is Root {
        Some(rules[0].style)
    } else {
        spec_first_root(rules.drop_first())
    }
}

/// The matched rules of the sheet, in sheet order, each with its rank.
pub open spec fn spec_matched(
    rules: Seq<StyleRuleModel>,
    selectors: Seq<SelectorKindModel>,
    modifier: Modifier,
    part: PartModel,
) -> Seq<(Style, int)>
    decreases rules.len(),
{
    if rules.len() == 0 {
        Seq::empty()
    } else {
        spec_matched(rules.drop_last(), selectors, modifier, part) + (if spec_matches(
            rules.last().selector,
            selectors,
            modifier,
            part,
        ) {
            seq![(rules.last().style, spec_rank(rules.last().selector))]
        } else {
            Seq::empty()
        })
    }
}

/// The candidate list: the first root style seeds it at rank zero,
/// then every matched rule follows in sheet order with its rank.
pub open spec fn spec_candidates(
    rules: Seq<StyleRuleModel>,
    selectors: Seq<SelectorKindModel>,
    modifier: Modifier,
    part: PartModel,
) -> Seq<(Style, int)> {
    (match spec_first_root(rules) {
        Option::Some(st) => seq![(st, 0int)],
        Option::None => Seq::empty(),
    }) + spec_matched(rules, selectors, modifier, part)
}

/// One optional style property, of whatever type.
#[derive(Clone, Copy, Debug, PartialEq, Eq, Structural)]
pub enum FieldValue {
    Color(Color),
    Width(u32),
    Font(FontMetrics),
    Alignment(TextAlignment),
}

/// The fields of a `Style`.
#[derive(Clone, Copy, Debug, PartialEq, Eq, Structural)]
pub enum StyleField {
    BackgroundColor,
    StrokeColor,
    AccentColor,
    StrokeWidth,
    Foreground,
    Font,
    Padding,
    LineHeight,
    TextAlignment,
}

/// Reads one field of a style.
pub open spec fn style_field(s: Style, f: StyleField) -> Option<FieldValue> {
    match f {
        StyleField::BackgroundColor => match s.background_color {
            Option::Some(c) => Some(FieldValue::Color(c)),
            Option::None => None,
        },
        StyleField::StrokeColor => match s.stroke_color {
            Option::Some(c) => Some(FieldValue::Color(c)),
            Option::None => None,
        },
        StyleField::AccentColor => match s.accent_color {
            Option::Some(c) => Some(FieldValue::Color(c)),
            Option::None => None,
        },
        StyleField::StrokeWidth => match s.stroke_width {
            Option::Some(w) => Some(FieldValue::Width(w)),
            Option::None => None,
        },
        StyleField::Foreground => match s.color {
            Option::Some(c) => Some(FieldValue::Color(c)),
            Option::None => None,
        },
        StyleField::Font => match s.font {
            Option::Some(m) => Some(FieldValue::Font(m)),
            Option::None => None,
        },
        StyleField::Padding => match s.padding {
            Option::Some(w) => Some(FieldValue::Width(w)),
            Option::None => None,
        },
        StyleField::LineHeight => match s.line_height {
            Option::Some(w) => Some(FieldValue::Width(w)),
            Option::None => None,
        },
        StyleField::TextAlignment => match s.text_alignment {
            Option::Some(a) => Some(FieldValue::Alignment(a)),
            Option::None => None,
        },
    }
}

/// Whether a new candidate that offers `v` at rank `r` displaces the
/// winner so far: it must set the field, and its rank must reach the
/// winner's (a later candidate wins a tie).
pub open spec fn pick_step(
    p: Option<(FieldValue, int)>,
    v: Option<FieldValue>,
    r: int,
) -> Option<(FieldValue, int)> {
    match v {
        Option::None => p,
        Option::Some(x) => match p {
            Option::None => Some((x, r)),
            Option::Some((pv, pr)) => if r >= pr {
                Some((x, r))
            } else {
                Some((pv, pr))
            },
        },
    }
}

/// The winning value of field `f` over the candidate list, with its
/// rank: the value of the candidate that sets `f` with the greatest
/// rank, the later of equally ranked candidates winning.
pub open spec fn pick_field(c: Seq<(Style, int)>, f: StyleField) -> Option<(FieldValue, int)>
    decreases c.len(),
{
    if c.len() == 0 {
        None
    } else {
        pick_step(pick_field(c.drop_last(), f), style_field(c.last().0, f), c.last().1)
    }
}

/// The winning value of field `f`, if any candidate sets it.
pub open spec fn field_value(c: Seq<(Style, int)>, f: StyleField) -> Option<FieldValue> {
    match pick_field(c, f) {
        Option::Some((v, _)) => Some(v),
        Option::None => None,
    }
}

pub open spec fn field_color(c: Seq<(Style, int)>, f: StyleField) -> Option<Color> {
    match field_value(c, f) {
        Option::Some(FieldValue::Color(x)) => Some(x),
        _ => None,
    }
}

pub open spec fn field_width(c: Seq<(Style, int)>, f: StyleField) -> Option<u32> {
    match field_value(c, f) {
        Option::Some(FieldValue::Width(x)) => Some(x),
        _ => None,
    }
}

/// What cascade resolution returns: every field holds the value of
/// the highest-ranked matching rule that sets it, later rules winning
/// ties; a field no matching rule sets stays unset.
pub open spec fn spec_resolve(
    rules: Seq<StyleRuleModel>,
    selectors: Seq<SelectorKindModel>,
    modifier: Modifier,
    part: PartModel,
) -> Style {
    let c = spec_candidates(rules, selectors, modifier, part);
    Style {
        background_color: field_color(c, StyleField::BackgroundColor),
        stroke_color: field_color(c, StyleField::StrokeColor),
        accent_color: field_color(c, StyleField::AccentColor),
        stroke_width: field_width(c, StyleField::StrokeWidth),
        color: field_color(c, StyleField::Foreground),
        font: (match field_value(c, StyleField::Font) {
            Option::Some(FieldValue::Font(m)) => Some(m),
            _ => None,
        }),
        padding: field_width(c, StyleField::Padding),
        line_height: field_width(c, StyleField::LineHeight),
        text_alignment: (match field_value(c, StyleField::TextAlignment) {
            Option::Some(FieldValue::Alignment(a)) => Some(a),
            _ => None,
        }),
    }
}

pub open spec fn kinds_model(s: Seq<SelectorKind>) -> Seq<SelectorKindModel> {
    Seq::new(s.len(), |i: int| s[i].model())
}

/// Reads one field of a style.
fn read_field(s: &Style, f: StyleField) -> (r: Option<FieldValue>)
    ensures
        r == style_field(*s, f),
{
    match f {
        StyleField::BackgroundColor => match s.background_color {
            Option::Some(c) => Some(FieldValue::Color(c)),
            Option::None => None,
        },
        StyleField::StrokeColor => match s.stroke_color {
            Option::Some(c) => Some(FieldValue::Color(c)),
            Option::None => None,
        },
        StyleField::AccentColor => match s.accent_color {
            Option::Some(c) => Some(FieldValue::Color(c)),
            Option::None => None,
        },
        StyleField::StrokeWidth => match s.stroke_width {
            Option::Some(w) => Some(FieldValue::Width(w)),
            Option::None => None,
        },
        StyleField::Foreground => match s.color {
            Option::Some(c) => Some(FieldValue::Color(c)),
            Option::None => None,
        },
        StyleField::Font => match s.font {
            Option::Some(m) => Some(FieldValue::Font(m)),
            Option::None => None,
        },
        StyleField::Padding => match s.padding {
            Option::Some(w) => Some(FieldValue::Width(w)),
            Option::None => None,
        },
        StyleField::LineHeight => match s.line_height {
            Option::Some(w) => Some(FieldValue::Width(w)),
            Option::None => None,
        },
        StyleField::TextAlignment => match s.text_alignment {
            Option::Some(a) => Some(FieldValue::Alignment(a)),
            Option::None => None,
        },
    }
}

/// Folds one candidate into a field's winner slot.
fn update_slot(slot: Option<(FieldValue, u8)>, v: Option<FieldValue>, r: u8) -> (out: Option<
    (FieldValue, u8),
>)
    ensures
        slot_of(out) == pick_step(slot_of(slot), v, r as int),
{
    match v {
        Option::None => slot,
        Option::Some(x) => match slot {
            Option::None => Some((x, r)),
            Option::Some((pv, pr)) => if r >= pr {
                Some((x, r))
            } else {
                Some((pv, pr))
            },
        },
    }
}

/// The mathematical value of a winner slot.
pub open spec fn slot_of(s: Option<(FieldValue, u8)>) -> Option<(FieldValue, int)> {
    match s {
        Option::Some((v, r)) => Some((v, r as int)),
        Option::None => None,
    }
}

/// Whether the widget's selector list holds this kind.
fn contains_kind(selectors: &[SelectorKind], k: &SelectorKind) -> (r: bool)
    ensures
        r == kinds_model(selectors@).contains(k.model()),
{
    let n = selectors.len();
    for i in 0..n
        invariant
            n == selectors@.len(),
            forall|j: int| 0 <= j < i ==> kinds_model(selectors@)[j] != k.model(),
    {
        if selectors[i].matches(k) {
            proof {
                assert(kinds_model(selectors@)[i as int] == k.model());
            }
            return true;
        }
    }
    proof {
        assert forall|j: int| 0 <= j < selectors@.len() implies kinds_model(selectors@)[j]
            != k.model() by {}
    }
    false
}


proof fn lemma_pick_field_empty()
    ensures
        forall|f: StyleField| pick_field(Seq::<(Style, int)>::empty(), f) is None,
{
}

proof fn lemma_pick_field_one(x: (Style, int))
    ensures
        forall|f: StyleField| #[trigger] pick_field(seq![x], f) == pick_step(
            None,
            style_field(x.0, f),
            x.1,
        ),
{
    assert(seq![x].drop_last() =~= Seq::<(Style, int)>::empty());
    lemma_pick_field_empty();
    assert forall|f: StyleField| #[trigger] pick_field(seq![x], f) == pick_step(
        None,
        style_field(x.0, f),
        x.1,
    ) by {
        assert(pick_field(seq![x], f) == pick_step(
            pick_field(seq![x].drop_last(), f),
            style_field(seq![x].last().0, f),
            seq![x].last().1,
        ));
    }
}

/// The candidate list after the first `i` rules of the sheet were
/// examined (the root seed always counts).
pub open spec fn partial_candidates(
    rules: Seq<StyleRuleModel>,
    i: int,
    selectors: Seq<SelectorKindModel>,
    modifier: Modifier,
    part: PartModel,
) -> Seq<(Style, int)> {
    (match spec_first_root(rules) {
        Option::Some(st) => seq![(st, 0int)],
        Option::None => Seq::empty(),
    }) + spec_matched(rules.take(i), selectors, modifier, part)
}

/// The rank of a rule selector, as a machine integer (at most 102).
pub fn rank_of(s: &Selector) -> (r: u8)
    ensures
        r as int == spec_rank(s.model()),
{
    let w: u8 = match &s.kind {
        SelectorKind::Root => 0,
        SelectorKind::Tag(_) => 1,
        SelectorKind::Class(_) => 10,
        SelectorKind::Id(_) => 100,
    };
    let m: u8 = if s.modifier != Modifier::Normal {
        1
    } else {
        0
    };
    let p: u8 = if s.part.is_main() {
        0
    } else {
        1
    };
    w + m + p
}

/// The style of the first `Root` rule of the sheet, if there is one.
fn first_root_style(rules: &[StyleRule]) -> (r: Option<Style>)
    ensures
        (match r {
            Option::Some(st) => spec_first_root(sheet_model(rules@)) == Some(st),
            Option::None => spec_first_root(sheet_model(rules@)) is None,
        }),
{
    let n = rules.len();
    proof {
        assert(sheet_model(rules@).skip(0int) =~= sheet_model(rules@));
    }
    for i in 0..n
        invariant
            n == rules@.len(),
            spec_first_root(sheet_model(rules@).skip(i as int)) == spec_first_root(
                sheet_model(rules@),
            ),
    {
        proof {
            assert(sheet_model(rules@).skip(i as int).drop_first() =~= sheet_model(rules@).skip(
                i + 1,
            ));
            assert(sheet_model(rules@).skip(i as int)[0] == sheet_model(rules@)[i as int]);
        }
        if rules[i].selector.kind.is_root() {
            return Some(rules[i].style);
        }
    }
    proof {
        assert(sheet_model(rules@).skip(n as int) =~= Seq::<StyleRuleModel>::empty());
    }
    None
}

/// Resolves the effective style of a widget: among the sheet's rules
/// that apply to `selectors` in state `modifier` for `part`, each
/// style field takes the value of the highest-ranked rule that sets
/// it, the later of equally ranked rules winning; the first root rule
/// seeds every field at the lowest rank.  Resolution is a pure
/// function of its arguments; with no matching rule every field stays
/// unset.
#[verifier::rlimit(80)]
pub fn resolve_style(
    selectors: &[SelectorKind],
    rules: &[StyleRule],
    modifier: Modifier,
    part: Part,
) -> (r: Style)
    ensures
        r == spec_resolve(sheet_model(rules@), kinds_model(selectors@), modifier, part.model()),
{
    let ghost sheetm = sheet_model(rules@);
    let ghost kindsm = kinds_model(selectors@);
    let ghost partm = part.model();
    let mut bg: Option<(FieldValue, u8)> = None;
    let mut sc: Option<(FieldValue, u8)> = None;
    let mut ac: Option<(FieldValue, u8)> = None;
    let mut sw: Option<(FieldValue, u8)> = None;
    let mut fg: Option<(FieldValue, u8)> = None;
    let mut ft: Option<(FieldValue, u8)> = None;
    let mut pd: Option<(FieldValue, u8)> = None;
    let mut lh: Option<(FieldValue, u8)> = None;
    let mut ta: Option<(FieldValue, u8)> = None;
    let root = first_root_style(rules);
    if let Some(st) = root {
        bg = update_slot(bg, read_field(&st, StyleField::BackgroundColor), 0);
        sc = update_slot(sc, read_field(&st, StyleField::StrokeColor), 0);
        ac = update_slot(ac, read_field(&st, StyleField::AccentColor), 0);
        sw = update_slot(sw, read_field(&st, StyleField::StrokeWidth), 0);
        fg = update_slot(fg, read_field(&st, StyleField::Foreground), 0);
        ft = update_slot(ft, read_field(&st, StyleField::Font), 0);
        pd = update_slot(pd, read_field(&st, StyleField::Padding), 0);
        lh = update_slot(lh, read_field(&st, StyleField::LineHeight), 0);
        ta = update_slot(ta, read_field(&st, StyleField::TextAlignment), 0);
    }
    proof {
        assert(sheetm.take(0int) =~= Seq::<StyleRuleModel>::empty());
        assert(spec_matched(sheetm.take(0int), kindsm, modifier, partm)
            =~= Seq::<(Style, int)>::empty());
        lemma_pick_field_empty();
        match spec_first_root(sheetm) {
            Option::Some(st) => {
                assert(partial_candidates(sheetm, 0int, kindsm, modifier, partm) =~= seq![
                    (st, 0int),
                ]);
                lemma_pick_field_one((st, 0int));
            },
            Option::None => {
                assert(partial_candidates(sheetm, 0int, kindsm, modifier, partm) =~= Seq::<
                    (Style, int),
                >::empty());
            },
        }
    }
    let n = rules.len();
    for i in 0..n
        invariant
            n == rules@.len(),
            sheetm == sheet_model(rules@),
            kindsm == kinds_model(selectors@),
            partm == part.model(),
            slot_of(bg) == pick_field(
                partial_candidates(sheetm, i as int, kindsm, modifier, partm),
                StyleField::BackgroundColor,
            ),
            slot_of(sc) == pick_field(
                partial_candidates(sheetm, i as int, kindsm, modifier, partm),
                StyleField::StrokeColor,
            ),
            slot_of(ac) == pick_field(
                partial_candidates(sheetm, i as int, kindsm, modifier, partm),
                StyleField::AccentColor,
            ),
            slot_of(sw) == pick_field(
                partial_candidates(sheetm, i as int, kindsm, modifier, partm),
                StyleField::StrokeWidth,
            ),
            slot_of(fg) == pick_field(
                partial_candidates(sheetm, i as int, kindsm, modifier, partm),
                StyleField::Foreground,
            ),
            slot_of(ft) == pick_field(
                partial_candidates(sheetm, i as int, kindsm, modifier, partm),
                StyleField::Font,
            ),
            slot_of(pd) == pick_field(
                partial_candidates(sheetm, i as int, kindsm, modifier, partm),
                StyleField::Padding,
            ),
            slot_of(lh) == pick_field(
                partial_candidates(sheetm, i as int, kindsm, modifier, partm),
                StyleField::LineHeight,
            ),
            slot_of(ta) == pick_field(
                partial_candidates(sheetm, i as int, kindsm, modifier, partm),
                StyleField::TextAlignment,
            ),
    {
        let rule = &rules[i];
        let base_matches = contains_kind(selectors, &rule.selector.kind);
        let modifier_matches = rule.selector.modifier == Modifier::Normal
            || rule.selector.modifier == modifier;
        let part_matches = rule.selector.part.is_main() || rule.selector.part.matches(&part);
        proof {
            assert(sheetm.take(i + 1).drop_last() =~= sheetm.take(i as int));
            assert(sheetm.take(i + 1).last() == sheetm[i as int]);
            assert(sheetm[i as int] == rules@[i as int].model());
        }
        if base_matches && modifier_matches && part_matches {
            let rank = rank_of(&rule.selector);
            let st = rule.style;
            bg = update_slot(bg, read_field(&st, StyleField::BackgroundColor), rank);
            sc = update_slot(sc, read_field(&st, StyleField::StrokeColor), rank);
            ac = update_slot(ac, read_field(&st, StyleField::AccentColor), rank);
            sw = update_slot(sw, read_field(&st, StyleField::StrokeWidth), rank);
            fg = update_slot(fg, read_field(&st, StyleField::Foreground), rank);
            ft = update_slot(ft, read_field(&st, StyleField::Font), rank);
            pd = update_slot(pd, read_field(&st, StyleField::Padding), rank);
            lh = update_slot(lh, read_field(&st, StyleField::LineHeight), rank);
            ta = update_slot(ta, read_field(&st, StyleField::TextAlignment), rank);
            proof {
                let prev = partial_candidates(sheetm, i as int, kindsm, modifier, partm);
                let cur = partial_candidates(sheetm, i + 1, kindsm, modifier, partm);
                assert(cur =~= prev.push((sheetm[i as int].style, spec_rank(sheetm[
                    i as int].selector))));
                assert(cur.drop_last() =~= prev);
            }
        } else {
            proof {
                let prev = partial_candidates(sheetm, i as int, kindsm, modifier, partm);
                let cur = partial_candidates(sheetm, i + 1, kindsm, modifier, partm);
                assert(cur =~= prev);
            }
        }
    }
    proof {
        assert(sheetm.take(n as int) =~= sheetm);
        assert(partial_candidates(sheetm, n as int, kindsm, modifier, partm) =~= spec_candidates(
            sheetm,
            kindsm,
            modifier,
            partm,
        ));
    }
    Style {
        background_color: (match bg {
            Option::Some((FieldValue::Color(c), _)) => Some(c),
            _ => None,
        }),
        stroke_color: (match sc {
            Option::Some((FieldValue::Color(c), _)) => Some(c),
            _ => None,
        }),
        accent_color: (match ac {
            Option::Some((FieldValue::Color(c), _)) => Some(c),
            _ => None,
        }),
        stroke_width: (match sw {
            Option::Some((FieldValue::Width(w), _)) => Some(w),
            _ => None,
        }),
        color: (match fg {
            Option::Some((FieldValue::Color(c), _)) => Some(c),
            _ => None,
        }),
        font: (match ft {
            Option::Some((FieldValue::Font(m), _)) => Some(m),
            _ => None,
        }),
        padding: (match pd {
            Option::Some((FieldValue::Width(w), _)) => Some(w),
            _ => None,
        }),
        line_height: (match lh {
            Option::Some((FieldValue::Width(w), _)) => Some(w),
            _ => None,
        }),
        text_alignment: (match ta {
            Option::Some((FieldValue::Alignment(a), _)) => Some(a),
            _ => None,
        }),
    }
}


/// Specificity monotonicity: a rule constrained to a modifier or to a
/// part never ranks below the otherwise identical rule without the
/// constraint, and ranks strictly above it as soon as it has one.
pub proof fn lemma_constrained_rule_outranks(
    kind: SelectorKindModel,
    modifier: Modifier,
    part: PartModel,
)
    ensures
        spec_rank(SelectorSpec { kind, part, modifier }) >= spec_rank(
            SelectorSpec { kind, part: PartModel::Main, modifier: Modifier::Normal },
        ),
        (modifier != Modifier::Normal || !(part is Main)) ==> spec_rank(
            SelectorSpec { kind, part, modifier },
        ) > spec_rank(SelectorSpec { kind, part: PartModel::Main, modifier: Modifier::Normal }),
{
}

/// Resolution is deterministic: resolving the same selector list,
/// sheet, modifier and part twice yields identical styles.
pub proof fn lemma_resolve_deterministic(
    r1: Style,
    r2: Style,
    rules: Seq<StyleRuleModel>,
    selectors: Seq<SelectorKindModel>,
    modifier: Modifier,
    part: PartModel,
)
    requires
        r1 == spec_resolve(rules, selectors, modifier, part),
        r2 == spec_resolve(rules, selectors, modifier, part),
    ensures
        r1 == r2,
{
}


proof fn lemma_no_match_no_candidates(
    rules: Seq<StyleRuleModel>,
    selectors: Seq<SelectorKindModel>,
    modifier: Modifier,
    part: PartModel,
)
    requires
        forall|i: int| 0 <= i < rules.len() ==> !spec_matches(
            (#[trigger] rules[i]).selector,
            selectors,
            modifier,
            part,
        ),
    ensures
        spec_matched(rules, selectors, modifier, part) =~= Seq::<(Style, int)>::empty(),
    decreases rules.len(),
{
    if rules.len() > 0 {
        lemma_no_match_no_candidates(rules.drop_last(), selectors, modifier, part);
        assert(rules.drop_last().len() == rules.len() - 1);
        assert(forall|i: int| 0 <= i < rules.len() - 1 ==> rules.drop_last()[i] == rules[i]);
    }
}

/// A resolution that nothing matches is not an error: when the sheet
/// has no root rule and no rule applies, every field of the resolved
/// style stays unset.
pub proof fn lemma_no_match_resolves_unset(
    rules: Seq<StyleRuleModel>,
    selectors: Seq<SelectorKindModel>,
    modifier: Modifier,
    part: PartModel,
)
    requires
        spec_first_root(rules) is None,
        forall|i: int| 0 <= i < rules.len() ==> !spec_matches(
            (#[trigger] rules[i]).selector,
            selectors,
            modifier,
            part,
        ),
    ensures
        spec_resolve(rules, selectors, modifier, part) == crate::style::spec_default_style(),
{
    lemma_no_match_no_candidates(rules, selectors, modifier, part);
    assert(spec_candidates(rules, selectors, modifier, part) =~= Seq::<(Style, int)>::empty());
    lemma_pick_field_empty();
}

} // verus!
