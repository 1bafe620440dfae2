//! The widget tree.  Every node wraps one widget — a leaf or a layout
//! container — together with its memoized requested size, its computed
//! rectangle and its interaction id.
//!
//! The tree is rebuilt every frame by builder calls; interaction ids
//! are handed out in construction order by an `IdAllocator`.
//!
//! Pixel arithmetic in the layout passes saturates at the type bounds
//! instead of overflowing.
use vstd::prelude::*;

use crate::geometry::{Rectangle, Size};
use crate::style::Style;

verus! {

/// Which axes a filler occupies.
#[derive(Clone, Copy, Debug, PartialEq, Eq, Structural)]
pub enum FillStrategy {
    Vertical,
    Horizontal,
    Both,
}

/// Stacking direction of a linear layout.
#[derive(Clone, Copy, Debug, PartialEq, Eq, Structural)]
pub enum LayoutDirection {
    Horizontal,
    Vertical,
}

/// Alignment of children along one axis of a linear layout.
#[derive(Clone, Copy, Debug, PartialEq, Eq, Structural)]
pub enum LayoutAlignment {
    Start,
    Center,
    End,
    Stretch,
}

/// Where a root child's rectangle is anchored.
#[derive(Clone, Copy, Debug, PartialEq, Eq, Structural)]
pub enum Anchor {
    TopLeft,
    Center,
}

/// A four-sided margin, in pixels.
#[derive(Clone, Copy, Debug, PartialEq, Eq, Structural, Default)]
pub struct Margin {
    pub top: i32,
    pub right: i32,
    pub bottom: i32,
    pub left: i32,
}

impl Margin {
    /// All four sides non-negative.
    pub open spec fn wf(self) -> bool {
        self.top >= 0 && self.right >= 0 && self.bottom >= 0 && self.left >= 0
    }

    /// The same margin on all four sides.
    pub fn all(v: i32) -> (r: Margin)
        ensures
            r == (Margin { top: v, right: v, bottom: v, left: v }),
    {
        Margin { top: v, right: v, bottom: v, left: v }
    }

    /// A vertical and a horizontal margin.
    pub fn symmetric(vertical: i32, horizontal: i32) -> (r: Margin)
        ensures
            r == (Margin { top: vertical, right: horizontal, bottom: vertical, left: horizontal }),
    {
        Margin { top: vertical, right: horizontal, bottom: vertical, left: horizontal }
    }

    pub fn new(top: i32, right: i32, bottom: i32, left: i32) -> (r: Margin)
        ensures
            r == (Margin { top, right, bottom, left }),
    {
        Margin { top, right, bottom, left }
    }
}

/// The pixel dimensions of a slider's parts.
#[derive(Clone, Copy, Debug, PartialEq, Eq, Structural)]
pub struct SliderDimensions {
    pub track_height: u32,
    pub handle_size: Size,
}

impl SliderDimensions {
    pub fn new(track_height: u32, handle_size: Size) -> (r: SliderDimensions)
        ensures
            r == (SliderDimensions { track_height, handle_size }),
    {
        SliderDimensions { track_height, handle_size }
    }

    /// The default dimensions: a four pixel track and a four by eight
    /// pixel handle.
    pub fn default() -> (r: SliderDimensions)
        ensures
            r == (SliderDimensions {
                track_height: 4,
                handle_size: Size { width: 4, height: 8 },
            }),
    {
        SliderDimensions { track_height: 4, handle_size: Size { width: 4, height: 8 } }
    }
}

/// How a leaf widget answers the size pass.
#[derive(Clone, Copy, Debug, PartialEq, Eq, Structural)]
pub enum LeafSizing {
    /// Occupy all the space offered (the default widget behavior).
    Hint,
    /// A size the host computed when it built the leaf (an image, a
    /// measured text, a gauge).
    Fixed(Size),
    /// A space filler along the given axes.
    Fill(FillStrategy),
    /// The offered width, at a fixed height (a slider).
    HintWidth(u32),
}

/// How a leaf widget reacts to input.  A slider's `value` is a
/// fraction of its width in thousandths.
#[derive(Clone, Copy, Debug, PartialEq, Eq, Structural)]
pub enum LeafBehavior {
    /// Never consumes events.
    Static,
    /// Consumes focus, activation and drag.
    Button,
    /// Consumes focus and activation; drag passes through.
    Toggle { state: bool },
    /// Consumes activation and drag by moving its value; nudge events
    /// reach it while focused.
    Slider { value: u32, dimensions: SliderDimensions },
}

impl LeafBehavior {
    /// Whether the widget takes part in focus cycling.
    pub open spec fn spec_interactive(self) -> bool {
        !(self is Static)
    }
}

/// A leaf widget: how it sizes itself and how it reacts.  What it
/// looks like is the host's business, keyed by `payload`.
#[derive(Clone, Copy, Debug, PartialEq, Eq, Structural)]
pub struct Leaf {
    pub sizing: LeafSizing,
    pub behavior: LeafBehavior,
    /// An opaque key the host uses to find this leaf's drawable data.
    pub payload: usize,
}

/// A widget: a leaf or one of the layout containers.
pub enum Widget {
    Leaf(Leaf),
    Linear(LinearLayout),
    Grid(GridLayout),
    Margin(Box<MarginLayout>),
    Root(RootLayout),
}

/// One node of the widget tree.
pub struct WidgetObj {
    pub widget: Widget,
    /// The rectangle the last layout pass assigned.
    pub computed_rect: Rectangle,
    /// The memoized answer of the size pass; a zero size means "not
    /// computed yet".
    pub requested_size: Size,
    /// `0` for non-interactive widgets, a construction-order index
    /// otherwise.
    pub id: usize,
}

/// A stack of children along one direction.
pub struct LinearLayout {
    pub children: Vec<WidgetObj>,
    pub direction: LayoutDirection,
    pub horizontal_alignment: LayoutAlignment,
    pub vertical_alignment: LayoutAlignment,
    pub style: Style,
    pub min_size: Size,
    pub max_size: Size,
}

/// Children placed row-major into fractional tracks.
pub struct GridLayout {
    pub children: Vec<WidgetObj>,
    pub col_fracs: Vec<u32>,
    pub row_fracs: Vec<u32>,
    pub gap: u32,
}

/// Exactly one child, inset by a margin.
pub struct MarginLayout {
    pub margin: Margin,
    pub child: WidgetObj,
    pub style: Style,
}

/// One child of the root layout.
pub struct RootChild {
    pub widget: WidgetObj,
    pub dimensions: Rectangle,
    /// When set, this child alone is offered the real event of the
    /// frame; the others see an idle event.
    pub exclusive: bool,
    pub anchor: Anchor,
}

/// The host-facing stack of widget trees: the main tree and optional
/// modal overlays.
pub struct RootLayout {
    pub children: Vec<RootChild>,
}

// ------------------------------------------------------------------
// The mathematical tree.

/// The mathematical value of a widget.
pub enum WidgetModel {
    Leaf(Leaf),
    Linear(LinearModel),
    Grid(GridModel),
    Margin(Box<MarginModel>),
    Root(RootModel),
}

/// The mathematical value of a tree node.
pub struct WModel {
    pub widget: WidgetModel,
    pub computed_rect: Rectangle,
    pub requested_size: Size,
    pub id: usize,
}

pub struct LinearModel {
    pub children: Seq<WModel>,
    pub direction: LayoutDirection,
    pub horizontal_alignment: LayoutAlignment,
    pub vertical_alignment: LayoutAlignment,
    pub style: Style,
    pub min_size: Size,
    pub max_size: Size,
}

pub struct GridModel {
    pub children: Seq<WModel>,
    pub col_fracs: Seq<u32>,
    pub row_fracs: Seq<u32>,
    pub gap: u32,
}

pub struct MarginModel {
    pub margin: Margin,
    pub child: WModel,
    pub style: Style,
}

pub struct RootChildModel {
    pub widget: WModel,
    pub dimensions: Rectangle,
    pub exclusive: bool,
    pub anchor: Anchor,
}

pub struct RootModel {
    pub children: Seq<RootChildModel>,
}

impl WidgetObj {
    pub open spec fn model(self) -> WModel
        decreases self,
    {
        WModel {
            widget: self.widget.model(),
            computed_rect: self.computed_rect,
            requested_size: self.requested_size,
            id: self.id,
        }
    }
}

impl LinearLayout {
    pub open spec fn model(self) -> LinearModel
        decreases self,
    {
        LinearModel {
            children: Seq::new(
                self.children@.len(),
                |i: int| if 0 <= i < self.children@.len() {
                    self.children@[i].model()
                } else {
                    empty_model()
                },
            ),
            direction: self.direction,
            horizontal_alignment: self.horizontal_alignment,
            vertical_alignment: self.vertical_alignment,
            style: self.style,
            min_size: self.min_size,
            max_size: self.max_size,
        }
    }
}

impl GridLayout {
    pub open spec fn model(self) -> GridModel
        decreases self,
    {
        GridModel {
            children: Seq::new(
                self.children@.len(),
                |i: int| if 0 <= i < self.children@.len() {
                    self.children@[i].model()
                } else {
                    empty_model()
                },
            ),
            col_fracs: self.col_fracs@,
            row_fracs: self.row_fracs@,
            gap: self.gap,
        }
    }
}

impl MarginLayout {
    pub open spec fn model(self) -> MarginModel
        decreases self,
    {
        MarginModel { margin: self.margin, child: self.child.model(), style: self.style }
    }
}

impl RootChild {
    pub open spec fn model(self) -> RootChildModel
        decreases self,
    {
        RootChildModel {
            widget: self.widget.model(),
            dimensions: self.dimensions,
            exclusive: self.exclusive,
            anchor: self.anchor,
        }
    }
}

impl RootLayout {
    pub open spec fn model(self) -> RootModel
        decreases self,
    {
        RootModel {
            children: Seq::new(
                self.children@.len(),
                |i: int| if 0 <= i < self.children@.len() {
                    self.children@[i].model()
                } else {
                    RootChildModel {
                        widget: empty_model(),
                        dimensions: crate::geometry::spec_zero_rect(),
                        exclusive: false,
                        anchor: Anchor::TopLeft,
                    }
                },
            ),
        }
    }
}

impl Widget {
    pub open spec fn model(self) -> WidgetModel
        decreases self,
    {
        match self {
            Widget::Leaf(l) => WidgetModel::Leaf(l),
            Widget::Linear(l) => WidgetModel::Linear(l.model()),
            Widget::Grid(g) => WidgetModel::Grid(g.model()),
            Widget::Margin(m) => WidgetModel::Margin(Box::new(m.model())),
            Widget::Root(r) => WidgetModel::Root(r.model()),
        }
    }
}

/// The node that out-of-range ghost indices map to; no in-range index
/// of a model view ever reaches it.
pub open spec fn empty_model() -> WModel {
    WModel {
        widget: WidgetModel::Leaf(
            Leaf { sizing: LeafSizing::Hint, behavior: LeafBehavior::Static, payload: 0 },
        ),
        computed_rect: crate::geometry::spec_zero_rect(),
        requested_size: Size { width: 0, height: 0 },
        id: 0,
    }
}

/// Well-formedness of a tree: grids have at least one column and one
/// row with a positive fraction total, margins are non-negative, and
/// a linear layout's size clamps are ordered.
pub open spec fn wf_widget(k: WidgetModel) -> bool
    decreases k,
{
    match k {
        WidgetModel::Leaf(_) => true,
        WidgetModel::Linear(l) => {
            &&& l.min_size.width <= l.max_size.width
            &&& l.min_size.height <= l.max_size.height
            &&& forall|i: int| 0 <= i < l.children.len() ==> wf_node(#[trigger] l.children[i])
        },
        WidgetModel::Grid(g) => {
            &&& g.col_fracs.len() > 0
            &&& g.row_fracs.len() > 0
            &&& sum_fracs(g.col_fracs) > 0
            &&& sum_fracs(g.row_fracs) > 0
            &&& sum_fracs(g.col_fracs) <= u32::MAX
            &&& sum_fracs(g.row_fracs) <= u32::MAX
            &&& forall|i: int| 0 <= i < g.children.len() ==> wf_node(#[trigger] g.children[i])
        },
        WidgetModel::Margin(m) => m.margin.wf() && wf_node(m.child),
        WidgetModel::Root(r) => forall|i: int|
            0 <= i < r.children.len() ==> wf_node((#[trigger] r.children[i]).widget),
    }
}

pub open spec fn wf_node(w: WModel) -> bool
    decreases w,
{
    wf_widget(w.widget)
}

/// The sum of a track's fractions, unbounded.
pub open spec fn sum_fracs(fracs: Seq<u32>) -> int
    decreases fracs.len(),
{
    if fracs.len() == 0 {
        0
    } else {
        sum_fracs(fracs.drop_last()) + fracs.last()
    }
}

/// Hands out interaction ids in construction order.  The counter is
/// reset at the start of every frame; the first widget of a frame
/// gets the id the reset value plus one.
pub struct IdAllocator {
    pub counter: usize,
}

impl IdAllocator {
    pub fn new() -> (r: IdAllocator)
        ensures
            r.counter == 0,
    {
        IdAllocator { counter: 0 }
    }

    /// The next id in construction order.
    pub fn next_id(&mut self) -> (r: usize)
        requires
            old(self).counter < usize::MAX,
        ensures
            final(self).counter == old(self).counter + 1,
            r == final(self).counter,
    {
        self.counter = self.counter + 1;
        self.counter
    }
}

impl WidgetObj {
    /// Wraps a widget into a fresh tree node: nothing computed yet,
    /// not interactive.
    pub fn new(widget: Widget) -> (r: WidgetObj)
        ensures
            r.widget == widget,
            r.computed_rect == crate::geometry::spec_zero_rect(),
            r.requested_size == (Size { width: 0, height: 0 }),
            r.id == 0,
            r.model() == (WModel {
                widget: widget.model(),
                computed_rect: crate::geometry::spec_zero_rect(),
                requested_size: Size { width: 0, height: 0 },
                id: 0,
            }),
    {
        WidgetObj {
            widget,
            computed_rect: Rectangle::zero(),
            requested_size: Size { width: 0, height: 0 },
            id: 0,
        }
    }

    /// Whether the wrapped widget takes part in focus cycling.
    pub fn is_interactive(&self) -> (r: bool)
        ensures
            r == spec_interactive(self.model().widget),
    {
        match &self.widget {
            Widget::Leaf(l) => match l.behavior {
                LeafBehavior::Static => false,
                _ => true,
            },
            _ => false,
        }
    }

    /// Gives the widget an id from the allocator when it is
    /// interactive.
    pub fn assign_id(&mut self, ids: &mut IdAllocator)
        requires
            old(ids).counter < usize::MAX,
        ensures
            (if spec_interactive(old(self).model().widget) {
                final(self).id == old(ids).counter + 1 && final(ids).counter == old(ids).counter
                    + 1
            } else {
                final(self).id == old(self).id && final(ids).counter == old(ids).counter
            }),
            final(self).widget == old(self).widget,
            final(self).computed_rect == old(self).computed_rect,
            final(self).requested_size == old(self).requested_size,
    {
        if self.is_interactive() {
            self.id = ids.next_id();
        }
    }

    /// The rectangle the last layout pass assigned.
    pub fn rect(&self) -> (r: Rectangle)
        ensures
            r == self.computed_rect,
    {
        self.computed_rect
    }
}

/// Whether a widget takes part in focus cycling.
pub open spec fn spec_interactive(k: WidgetModel) -> bool {
    match k {
        WidgetModel::Leaf(l) => l.behavior.spec_interactive(),
        _ => false,
    }
}


impl RootLayout {
    /// An empty root layout.
    pub fn new() -> (r: RootLayout)
        ensures
            r.model().children =~= Seq::<RootChildModel>::empty(),
    {
        RootLayout { children: Vec::new() }
    }

    /// Hosts a widget tree within the given rectangle.  An exclusive
    /// child is the only one offered the frame's real event.
    pub fn add_widget_obj(
        &mut self,
        widget: WidgetObj,
        rect: Rectangle,
        exclusive: bool,
        anchor: Anchor,
    )
        ensures
            final(self).model().children =~= old(self).model().children.push(
                RootChildModel { widget: widget.model(), dimensions: rect, exclusive, anchor },
            ),
    {
        self.children.push(RootChild { widget, dimensions: rect, exclusive, anchor });
    }

    /// The finished root layout as a tree node.
    pub fn finish(self) -> (r: WidgetObj)
        ensures
            r.model() == (WModel {
                widget: WidgetModel::Root(self.model()),
                computed_rect: crate::geometry::spec_zero_rect(),
                requested_size: Size { width: 0, height: 0 },
                id: 0,
            }),
    {
        WidgetObj::new(Widget::Root(self))
    }
}

/// Builds a linear layout.
pub struct LinearLayoutBuilder {
    pub children: Vec<WidgetObj>,
    pub horizontal_alignment: LayoutAlignment,
    pub vertical_alignment: LayoutAlignment,
    pub direction: LayoutDirection,
    pub style: Style,
    pub min_size: Size,
    pub max_size: Size,
}

impl LinearLayoutBuilder {
    /// A vertical layout with start alignment, no style and no size
    /// clamps.
    pub fn default() -> (r: LinearLayoutBuilder)
        ensures
            r.children@.len() == 0,
            r.horizontal_alignment == LayoutAlignment::Start,
            r.vertical_alignment == LayoutAlignment::Start,
            r.direction == LayoutDirection::Vertical,
            r.style == crate::style::spec_default_style(),
            r.min_size == (Size { width: 0, height: 0 }),
            r.max_size == (Size { width: u32::MAX, height: u32::MAX }),
    {
        LinearLayoutBuilder {
            children: Vec::new(),
            horizontal_alignment: LayoutAlignment::Start,
            vertical_alignment: LayoutAlignment::Start,
            direction: LayoutDirection::Vertical,
            style: crate::style::Style::default(),
            min_size: Size { width: 0, height: 0 },
            max_size: Size { width: u32::MAX, height: u32::MAX },
        }
    }

    pub fn min_size(self, min_size: Size) -> (r: LinearLayoutBuilder)
        ensures
            r == (LinearLayoutBuilder { min_size, ..self }),
    {
        LinearLayoutBuilder { min_size, ..self }
    }

    pub fn max_size(self, max_size: Size) -> (r: LinearLayoutBuilder)
        ensures
            r == (LinearLayoutBuilder { max_size, ..self }),
    {
        LinearLayoutBuilder { max_size, ..self }
    }

    pub fn horizontal_alignment(self, alignment: LayoutAlignment) -> (r: LinearLayoutBuilder)
        ensures
            r == (LinearLayoutBuilder { horizontal_alignment: alignment, ..self }),
    {
        LinearLayoutBuilder { horizontal_alignment: alignment, ..self }
    }

    pub fn vertical_alignment(self, alignment: LayoutAlignment) -> (r: LinearLayoutBuilder)
        ensures
            r == (LinearLayoutBuilder { vertical_alignment: alignment, ..self }),
    {
        LinearLayoutBuilder { vertical_alignment: alignment, ..self }
    }

    pub fn direction(self, direction: LayoutDirection) -> (r: LinearLayoutBuilder)
        ensures
            r == (LinearLayoutBuilder { direction, ..self }),
    {
        LinearLayoutBuilder { direction, ..self }
    }

    pub fn style(self, style: Style) -> (r: LinearLayoutBuilder)
        ensures
            r == (LinearLayoutBuilder { style, ..self }),
    {
        LinearLayoutBuilder { style, ..self }
    }

    /// Aligns the main axis; `Stretch` stretches both axes, anything
    /// else resets the cross axis to `Start`.
    pub fn alignment(self, alignment: LayoutAlignment) -> (r: LinearLayoutBuilder)
        ensures
            (if alignment == LayoutAlignment::Stretch {
                r == (LinearLayoutBuilder {
                    horizontal_alignment: LayoutAlignment::Stretch,
                    vertical_alignment: LayoutAlignment::Stretch,
                    ..self
                })
            } else if self.direction == LayoutDirection::Horizontal {
                r == (LinearLayoutBuilder {
                    horizontal_alignment: alignment,
                    vertical_alignment: LayoutAlignment::Start,
                    ..self
                })
            } else {
                r == (LinearLayoutBuilder {
                    vertical_alignment: alignment,
                    horizontal_alignment: LayoutAlignment::Start,
                    ..self
                })
            }),
    {
        if alignment == LayoutAlignment::Stretch {
            return LinearLayoutBuilder {
                horizontal_alignment: LayoutAlignment::Stretch,
                vertical_alignment: LayoutAlignment::Stretch,
                ..self
            };
        }
        match self.direction {
            LayoutDirection::Horizontal => LinearLayoutBuilder {
                horizontal_alignment: alignment,
                vertical_alignment: LayoutAlignment::Start,
                ..self
            },
            LayoutDirection::Vertical => LinearLayoutBuilder {
                vertical_alignment: alignment,
                horizontal_alignment: LayoutAlignment::Start,
                ..self
            },
        }
    }

    /// Adds a child node.
    pub fn add_widget_obj(&mut self, widget: WidgetObj)
        ensures
            final(self).children@ == old(self).children@.push(widget),
            final(self).horizontal_alignment == old(self).horizontal_alignment,
            final(self).vertical_alignment == old(self).vertical_alignment,
            final(self).direction == old(self).direction,
            final(self).style == old(self).style,
            final(self).min_size == old(self).min_size,
            final(self).max_size == old(self).max_size,
    {
        self.children.push(widget);
    }

    /// Wraps a widget in a node, hands out an interaction id when the
    /// widget is interactive, and adds it.
    pub fn add_widget(&mut self, widget: Widget, ids: &mut IdAllocator)
        requires
            old(ids).counter < usize::MAX,
        ensures
            final(self).children@.len() == old(self).children@.len() + 1,
            final(self).children@.drop_last() == old(self).children@,
            ({
                let node = final(self).children@.last();
                node.widget == widget && node.requested_size.is_zero() && (
                if spec_interactive(widget.model()) {
                    node.id == old(ids).counter + 1 && final(ids).counter == old(ids).counter + 1
                } else {
                    node.id == 0 && final(ids).counter == old(ids).counter
                })
            }),
            final(self).horizontal_alignment == old(self).horizontal_alignment,
            final(self).vertical_alignment == old(self).vertical_alignment,
            final(self).direction == old(self).direction,
            final(self).style == old(self).style,
            final(self).min_size == old(self).min_size,
            final(self).max_size == old(self).max_size,
    {
        let mut node = WidgetObj::new(widget);
        node.assign_id(ids);
        self.children.push(node);
        proof {
            assert(final(self).children@.drop_last() =~= old(self).children@);
        }
    }

    /// The finished layout as a tree node.
    pub fn finish(self) -> (r: WidgetObj)
        ensures
            r.model() == (WModel {
                widget: WidgetModel::Linear(
                    LinearModel {
                        children: crate::dispatch::obj_models(self.children@),
                        direction: self.direction,
                        horizontal_alignment: self.horizontal_alignment,
                        vertical_alignment: self.vertical_alignment,
                        style: self.style,
                        min_size: self.min_size,
                        max_size: self.max_size,
                    },
                ),
                computed_rect: crate::geometry::spec_zero_rect(),
                requested_size: Size { width: 0, height: 0 },
                id: 0,
            }),
    {
        let r = WidgetObj::new(
            Widget::Linear(
                LinearLayout {
                    children: self.children,
                    direction: self.direction,
                    horizontal_alignment: self.horizontal_alignment,
                    vertical_alignment: self.vertical_alignment,
                    style: self.style,
                    min_size: self.min_size,
                    max_size: self.max_size,
                },
            ),
        );
        proof {
            assert(r.model().widget->Linear_0.children =~= crate::dispatch::obj_models(
                self.children@,
            ));
        }
        r
    }
}

/// Builds a grid layout.
pub struct GridLayoutBuilder {
    pub children: Vec<WidgetObj>,
    pub col_fracs: Vec<u32>,
    pub row_fracs: Vec<u32>,
    pub gap: u32,
}

impl GridLayoutBuilder {
    /// An empty grid with no tracks and no gap.
    pub fn default() -> (r: GridLayoutBuilder)
        ensures
            r.children@.len() == 0,
            r.col_fracs@.len() == 0,
            r.row_fracs@.len() == 0,
            r.gap == 0,
    {
        GridLayoutBuilder { children: Vec::new(), col_fracs: Vec::new(), row_fracs: Vec::new(), gap: 0 }
    }

    /// Adds a column, its weight given in percent (clamped to 100).
    pub fn add_column(self, percentage: u32) -> (r: GridLayoutBuilder)
        ensures
            r.col_fracs@ == self.col_fracs@.push(
                if percentage > 100 {
                    100u32
                } else {
                    percentage
                },
            ),
            r.row_fracs@ == self.row_fracs@,
            r.children@ == self.children@,
            r.gap == self.gap,
    {
        let mut this = self;
        this.col_fracs.push(if percentage > 100 {
            100
        } else {
            percentage
        });
        this
    }

    /// Adds a row, its weight given in percent (clamped to 100).
    pub fn add_row(self, percentage: u32) -> (r: GridLayoutBuilder)
        ensures
            r.row_fracs@ == self.row_fracs@.push(
                if percentage > 100 {
                    100u32
                } else {
                    percentage
                },
            ),
            r.col_fracs@ == self.col_fracs@,
            r.children@ == self.children@,
            r.gap == self.gap,
    {
        let mut this = self;
        this.row_fracs.push(if percentage > 100 {
            100
        } else {
            percentage
        });
        this
    }

    /// Sets the pixel gap between tracks.
    pub fn gap(self, gap: u32) -> (r: GridLayoutBuilder)
        ensures
            r.gap == gap,
            r.col_fracs@ == self.col_fracs@,
            r.row_fracs@ == self.row_fracs@,
            r.children@ == self.children@,
    {
        GridLayoutBuilder { gap, ..self }
    }

    /// Adds a child node, placed row-major.
    pub fn add_widget_obj(&mut self, widget: WidgetObj)
        ensures
            final(self).children@ == old(self).children@.push(widget),
            final(self).col_fracs@ == old(self).col_fracs@,
            final(self).row_fracs@ == old(self).row_fracs@,
            final(self).gap == old(self).gap,
    {
        self.children.push(widget);
    }

    /// Wraps a widget in a node, hands out an interaction id when the
    /// widget is interactive, and adds it.
    pub fn add_widget(&mut self, widget: Widget, ids: &mut IdAllocator)
        requires
            old(ids).counter < usize::MAX,
        ensures
            final(self).children@.len() == old(self).children@.len() + 1,
            final(self).children@.drop_last() == old(self).children@,
            ({
                let node = final(self).children@.last();
                node.widget == widget && node.requested_size.is_zero() && (
                if spec_interactive(widget.model()) {
                    node.id == old(ids).counter + 1 && final(ids).counter == old(ids).counter + 1
                } else {
                    node.id == 0 && final(ids).counter == old(ids).counter
                })
            }),
            final(self).col_fracs@ == old(self).col_fracs@,
            final(self).row_fracs@ == old(self).row_fracs@,
            final(self).gap == old(self).gap,
    {
        let mut node = WidgetObj::new(widget);
        node.assign_id(ids);
        self.children.push(node);
        proof {
            assert(final(self).children@.drop_last() =~= old(self).children@);
        }
    }

    /// The finished grid as a tree node.
    pub fn finish(self) -> (r: WidgetObj)
        ensures
            r.model() == (WModel {
                widget: WidgetModel::Grid(
                    GridModel {
                        children: crate::dispatch::obj_models(self.children@),
                        col_fracs: self.col_fracs@,
                        row_fracs: self.row_fracs@,
                        gap: self.gap,
                    },
                ),
                computed_rect: crate::geometry::spec_zero_rect(),
                requested_size: Size { width: 0, height: 0 },
                id: 0,
            }),
    {
        let r = WidgetObj::new(
            Widget::Grid(
                GridLayout {
                    children: self.children,
                    col_fracs: self.col_fracs,
                    row_fracs: self.row_fracs,
                    gap: self.gap,
                },
            ),
        );
        proof {
            assert(r.model().widget->Grid_0.children =~= crate::dispatch::obj_models(
                self.children@,
            ));
        }
        r
    }
}

/// Builds a margin layout around exactly one child.  Adding a second
/// child is a programmer error; the finished widget always holds one.
pub struct MarginLayoutBuilder {
    pub margin: Margin,
    pub child: Option<WidgetObj>,
    pub style: Style,
}

impl MarginLayoutBuilder {
    /// A margin layout with no background style.
    pub fn new(margin: Margin) -> (r: MarginLayoutBuilder)
        ensures
            r.margin == margin,
            r.child is None,
            r.style == crate::style::spec_default_style(),
    {
        MarginLayoutBuilder { margin, child: None, style: crate::style::Style::default() }
    }

    /// A margin layout that paints a background style first.
    pub fn new_with_style(margin: Margin, style: Style) -> (r: MarginLayoutBuilder)
        ensures
            r.margin == margin,
            r.child is None,
            r.style == style,
    {
        MarginLayoutBuilder { margin, child: None, style }
    }

    /// Sets the single child.
    pub fn add_widget_obj(&mut self, widget: WidgetObj)
        requires
            old(self).child is None,
        ensures
            final(self).child == Some(widget),
            final(self).margin == old(self).margin,
            final(self).style == old(self).style,
    {
        self.child = Some(widget);
    }

    /// The finished layout as a tree node.
    pub fn finish(self) -> (r: WidgetObj)
        requires
            self.child is Some,
        ensures
            r.model() == (WModel {
                widget: WidgetModel::Margin(
                    Box::new(
                        MarginModel {
                            margin: self.margin,
                            child: self.child->Some_0.model(),
                            style: self.style,
                        },
                    ),
                ),
                computed_rect: crate::geometry::spec_zero_rect(),
                requested_size: Size { width: 0, height: 0 },
                id: 0,
            }),
    {
        let child = self.child.unwrap();
        WidgetObj::new(
            Widget::Margin(
                Box::new(MarginLayout { margin: self.margin, child, style: self.style }),
            ),
        )
    }
}

impl WidgetObj {
    /// The widget's smallest acceptable size.
    pub fn min_size(&self) -> (r: Size)
        ensures
            r == spec_min_size(self.model().widget),
    {
        match &self.widget {
            Widget::Linear(l) => l.min_size,
            _ => Size { width: 0, height: 0 },
        }
    }

    /// The widget's largest acceptable size.
    pub fn max_size(&self) -> (r: Size)
        ensures
            r == spec_max_size(self.model().widget),
    {
        match &self.widget {
            Widget::Linear(l) => l.max_size,
            Widget::Leaf(l) => match l.behavior {
                LeafBehavior::Slider { value, dimensions } => Size {
                    width: u32::MAX,
                    height: crate::geometry::add_sat(dimensions.handle_size.height, 2),
                },
                _ => Size { width: u32::MAX, height: u32::MAX },
            },
            _ => Size { width: u32::MAX, height: u32::MAX },
        }
    }

    /// A size clamped between the widget's minimum and maximum sizes.
    pub fn calculate_bound_sizes(&self, size: Size) -> (r: Size)
        requires
            spec_min_size(self.model().widget).width <= spec_max_size(self.model().widget).width,
            spec_min_size(self.model().widget).height <= spec_max_size(self.model().widget).height,
        ensures
            r.width == clamp_u32_range(
                size.width,
                spec_min_size(self.model().widget).width,
                spec_max_size(self.model().widget).width,
            ),
            r.height == clamp_u32_range(
                size.height,
                spec_min_size(self.model().widget).height,
                spec_max_size(self.model().widget).height,
            ),
    {
        let lo = self.min_size();
        let hi = self.max_size();
        Size {
            width: clamp_px(size.width, lo.width, hi.width),
            height: clamp_px(size.height, lo.height, hi.height),
        }
    }
}

/// The smallest size a widget accepts.
pub open spec fn spec_min_size(k: WidgetModel) -> Size {
    match k {
        WidgetModel::Linear(l) => l.min_size,
        _ => Size { width: 0, height: 0 },
    }
}

/// The largest size a widget accepts.
pub open spec fn spec_max_size(k: WidgetModel) -> Size {
    match k {
        WidgetModel::Linear(l) => l.max_size,
        WidgetModel::Leaf(l) => match l.behavior {
            LeafBehavior::Slider { value, dimensions } => Size {
                width: u32::MAX,
                height: crate::geometry::sat_add_u32(dimensions.handle_size.height, 2),
            },
            _ => Size { width: u32::MAX, height: u32::MAX },
        },
        _ => Size { width: u32::MAX, height: u32::MAX },
    }
}

/// A pixel amount clamped into a range.
pub open spec fn clamp_u32_range(v: u32, lo: u32, hi: u32) -> u32 {
    if v < lo {
        lo
    } else if v > hi {
        hi
    } else {
        v
    }
}

/// A pixel amount clamped into a range.
pub fn clamp_px(v: u32, lo: u32, hi: u32) -> (r: u32)
    requires
        lo <= hi,
    ensures
        r == clamp_u32_range(v, lo, hi),
{
    if v < lo {
        lo
    } else if v > hi {
        hi
    } else {
        v
    }
}

} // verus!
