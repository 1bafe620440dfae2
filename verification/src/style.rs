//! The style model: selectors a widget is matched by, style records
//! with independently optional fields, and their merge operation.
use vstd::prelude::*;

verus! {

/// A 24-bit color.
#[derive(Clone, Copy, Debug, PartialEq, Eq, Structural)]
pub struct Color {
    pub red: u8,
    pub green: u8,
    pub blue: u8,
}

impl Color {
    pub fn new(red: u8, green: u8, blue: u8) -> (r: Color)
        ensures
            r == (Color { red, green, blue }),
    {
        Color { red, green, blue }
    }
}

/// The metrics of a monospace font that sizing reads: every character
/// occupies `character_width` pixels plus `character_spacing` between
/// characters, and a line is `character_height` pixels tall.
#[derive(Clone, Copy, Debug, PartialEq, Eq, Structural)]
pub struct FontMetrics {
    pub character_width: u32,
    pub character_height: u32,
    pub character_spacing: u32,
}

/// Horizontal alignment of text inside its rectangle.
#[derive(Clone, Copy, Debug, PartialEq, Eq, Structural)]
pub enum TextAlignment {
    Left,
    Center,
    Right,
}

/// The widget types that rules can select.
#[derive(Clone, Copy, Debug, PartialEq, Eq, Structural)]
pub enum Tag {
    Button,
    Battery,
    ToggleButton,
    Label,
    Alert,
    SevenSegment,
    Gauge,
    Image,
    Plot,
    Slider,
}

/// A named sub-region of a widget that rules can select.
#[derive(Clone, Debug, PartialEq, Eq)]
pub enum Part {
    Main,
    SliderTrack,
    SliderHandle,
    ToggleButtonLightInactive,
    ToggleButtonLightActive,
    /// A selector for widget parts implemented outside the library.
    Custom(String),
}

/// The mathematical value of a `Part`.
pub enum PartModel {
    Main,
    SliderTrack,
    SliderHandle,
    ToggleButtonLightInactive,
    ToggleButtonLightActive,
    Custom(Seq<char>),
}

impl Part {
    pub open spec fn model(self) -> PartModel {
        match self {
            Part::Main => PartModel::Main,
            Part::SliderTrack => PartModel::SliderTrack,
            Part::SliderHandle => PartModel::SliderHandle,
            Part::ToggleButtonLightInactive => PartModel::ToggleButtonLightInactive,
            Part::ToggleButtonLightActive => PartModel::ToggleButtonLightActive,
            Part::Custom(s) => PartModel::Custom(s@),
        }
    }

    /// Whether two parts are the same part.
    pub fn matches(&self, other: &Part) -> (r: bool)
        ensures
            r == (self.model() == other.model()),
    {
        match (self, other) {
            (Part::Main, Part::Main) => true,
            (Part::SliderTrack, Part::SliderTrack) => true,
            (Part::SliderHandle, Part::SliderHandle) => true,
            (Part::ToggleButtonLightInactive, Part::ToggleButtonLightInactive) => true,
            (Part::ToggleButtonLightActive, Part::ToggleButtonLightActive) => true,
            (Part::Custom(a), Part::Custom(b)) => a.eq(b),
            _ => false,
        }
    }

    /// Whether this is the `Main` part.
    pub fn is_main(&self) -> (r: bool)
        ensures
            r == (self.model() is Main),
    {
        match self {
            Part::Main => true,
            _ => false,
        }
    }
}

/// A widget interaction state usable as a selector constraint,
/// analogous to a CSS pseudo-class.
#[derive(Clone, Copy, Debug, PartialEq, Eq, Structural)]
pub enum Modifier {
    /// No interaction state: a rule with this modifier applies in
    /// every state.
    Normal,
    Focus,
    Active,
    Drag,
}

/// What a rule selects on: the root, a widget tag, a class or an id.
#[derive(Clone, Debug, PartialEq, Eq)]
pub enum SelectorKind {
    Root,
    Tag(Tag),
    Class(String),
    Id(String),
}

/// The mathematical value of a `SelectorKind`.
pub enum SelectorKindModel {
    Root,
    Tag(Tag),
    Class(Seq<char>),
    Id(Seq<char>),
}

impl SelectorKind {
    pub open spec fn model(self) -> SelectorKindModel {
        match self {
            SelectorKind::Root => SelectorKindModel::Root,
            SelectorKind::Tag(t) => SelectorKindModel::Tag(t),
            SelectorKind::Class(s) => SelectorKindModel::Class(s@),
            SelectorKind::Id(s) => SelectorKindModel::Id(s@),
        }
    }

    /// Whether two kinds select the same thing.
    pub fn matches(&self, other: &SelectorKind) -> (r: bool)
        ensures
            r == (self.model() == other.model()),
    {
        match (self, other) {
            (SelectorKind::Root, SelectorKind::Root) => true,
            (SelectorKind::Tag(a), SelectorKind::Tag(b)) => *a == *b,
            (SelectorKind::Class(a), SelectorKind::Class(b)) => a.eq(b),
            (SelectorKind::Id(a), SelectorKind::Id(b)) => a.eq(b),
            _ => false,
        }
    }

    /// Whether this kind is `Root`.
    pub fn is_root(&self) -> (r: bool)
        ensures
            r == (self.model() is Root),
    {
        match self {
            SelectorKind::Root => true,
            _ => false,
        }
    }
}

/// A rule selector: what it selects on, which part it styles, and in
/// which interaction state it applies.
#[derive(Clone, Debug, PartialEq, Eq)]
pub struct Selector {
    pub kind: SelectorKind,
    pub part: Part,
    pub modifier: Modifier,
}

/// The mathematical value of a rule `Selector`.
pub struct SelectorSpec {
    pub kind: SelectorKindModel,
    pub part: PartModel,
    pub modifier: Modifier,
}

impl Selector {
    pub open spec fn model(self) -> SelectorSpec {
        SelectorSpec { kind: self.kind.model(), part: self.part.model(), modifier: self.modifier }
    }

    /// A selector for a widget tag, in every state, for the main part.
    pub fn new_tag(tag: Tag) -> (r: Selector)
        ensures
            r.model() == (SelectorSpec {
                kind: SelectorKindModel::Tag(tag),
                part: PartModel::Main,
                modifier: Modifier::Normal,
            }),
    {
        Selector { kind: SelectorKind::Tag(tag), part: Part::Main, modifier: Modifier::Normal }
    }

    /// The root selector: applies to everything, at the lowest rank.
    pub fn new_root() -> (r: Selector)
        ensures
            r.model() == (SelectorSpec {
                kind: SelectorKindModel::Root,
                part: PartModel::Main,
                modifier: Modifier::Normal,
            }),
    {
        Selector { kind: SelectorKind::Root, part: Part::Main, modifier: Modifier::Normal }
    }
}

/// A record of optional visual properties.  An unset field means "no
/// constraint": it is never the same as a zero or default value.
#[derive(Clone, Copy, Debug, PartialEq, Eq, Structural)]
pub struct Style {
    pub background_color: Option<Color>,
    pub stroke_color: Option<Color>,
    pub accent_color: Option<Color>,
    pub stroke_width: Option<u32>,
    pub color: Option<Color>,
    pub font: Option<FontMetrics>,
    pub padding: Option<u32>,
    pub line_height: Option<u32>,
    pub text_alignment: Option<TextAlignment>,
}

/// `b` written over `a`: every field set in `b` wins, every other
/// field keeps what `a` has.
pub open spec fn spec_merge(a: Style, b: Style) -> Style {
    Style {
        background_color: if b.background_color is Some {
            b.background_color
        } else {
            a.background_color
        },
        stroke_color: if b.stroke_color is Some {
            b.stroke_color
        } else {
            a.stroke_color
        },
        accent_color: if b.accent_color is Some {
            b.accent_color
        } else {
            a.accent_color
        },
        stroke_width: if b.stroke_width is Some {
            b.stroke_width
        } else {
            a.stroke_width
        },
        color: if b.color is Some {
            b.color
        } else {
            a.color
        },
        font: if b.font is Some {
            b.font
        } else {
            a.font
        },
        padding: if b.padding is Some {
            b.padding
        } else {
            a.padding
        },
        line_height: if b.line_height is Some {
            b.line_height
        } else {
            a.line_height
        },
        text_alignment: if b.text_alignment is Some {
            b.text_alignment
        } else {
            a.text_alignment
        },
    }
}

/// The style with every field unset.
pub open spec fn spec_default_style() -> Style {
    Style {
        background_color: None,
        stroke_color: None,
        accent_color: None,
        stroke_width: None,
        color: None,
        font: None,
        padding: None,
        line_height: None,
        text_alignment: None,
    }
}

impl Style {
    /// The style with every field unset.
    pub fn default() -> (r: Style)
        ensures
            r == spec_default_style(),
    {
        Style {
            background_color: None,
            stroke_color: None,
            accent_color: None,
            stroke_width: None,
            color: None,
            font: None,
            padding: None,
            line_height: None,
            text_alignment: None,
        }
    }

    /// Overwrites every field of `self` that `other` sets.
    pub fn merge(&mut self, other: Style)
        ensures
            *final(self) == spec_merge(*old(self), other),
    {
        if other.background_color.is_some() {
            self.background_color = other.background_color;
        }
        if other.stroke_color.is_some() {
            self.stroke_color = other.stroke_color;
        }
        if other.accent_color.is_some() {
            self.accent_color = other.accent_color;
        }
        if other.stroke_width.is_some() {
            self.stroke_width = other.stroke_width;
        }
        if other.color.is_some() {
            self.color = other.color;
        }
        if other.font.is_some() {
            self.font = other.font;
        }
        if other.padding.is_some() {
            self.padding = other.padding;
        }
        if other.line_height.is_some() {
            self.line_height = other.line_height;
        }
        if other.text_alignment.is_some() {
            self.text_alignment = other.text_alignment;
        }
    }
}

/// One rule of a style sheet: a selector and the style it applies.
#[derive(Clone, Debug)]
pub struct StyleRule {
    pub selector: Selector,
    pub style: Style,
}

/// The mathematical value of a `StyleRule`.
pub struct StyleRuleModel {
    pub selector: SelectorSpec,
    pub style: Style,
}

impl StyleRule {
    pub open spec fn model(self) -> StyleRuleModel {
        StyleRuleModel { selector: self.selector.model(), style: self.style }
    }

    pub fn new(selector: Selector, style: Style) -> (r: StyleRule)
        ensures
            r.model() == (StyleRuleModel { selector: selector.model(), style }),
    {
        StyleRule { selector, style }
    }
}

/// An ordered collection of style rules.  Order matters only to break
/// rank ties: at equal rank, the later rule wins.
pub type StyleSheet = Vec<StyleRule>;

pub open spec fn sheet_model(rules: Seq<StyleRule>) -> Seq<StyleRuleModel> {
    Seq::new(rules.len(), |i: int| rules[i].model())
}

/// The selector identity a widget offers for matching: its tag text
/// and, optionally, an id and a class given by the application.
pub struct WidgetStyleContext {
    pub id: Option<String>,
    pub class: Option<String>,
    pub tag: String,
}

} // verus!
