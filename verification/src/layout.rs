//! The size and layout passes of the three-pass protocol.
//!
//! `size` asks every widget for its desired footprint under a hint and
//! memoizes the answer; `layout` assigns every widget its final
//! rectangle.  Both passes are specified by pure functions over the
//! mathematical tree.
use vstd::prelude::*;

use crate::geometry::{
    Point, Rectangle, Size, max_u32, sat_add_i32, sat_add_u32, sat_sub_u32, add_sat, add_sat_i32,
    max_px, min_px, sub_sat,
};
use crate::widgets::{
    Anchor, FillStrategy, GridModel, GridLayout, LayoutAlignment, LayoutDirection, Leaf,
    LeafSizing, LinearLayout, LinearModel, Margin, MarginLayout, MarginModel, RootChild,
    RootChildModel, RootLayout, RootModel, WModel, Widget, WidgetModel, WidgetObj, sum_fracs,
    wf_node, wf_widget,
};

verus! {

// ------------------------------------------------------------------
// Tree height: the measure the layout pass recursion shrinks.

/// The height of a widget: leaves are zero, a container is one more
/// than its tallest child.
pub open spec fn widget_height(k: WidgetModel) -> nat
    decreases k,
{
    match k {
        WidgetModel::Leaf(_) => 0,
        WidgetModel::Linear(l) => 1 + children_height(l.children),
        WidgetModel::Grid(g) => 1 + children_height(g.children),
        WidgetModel::Margin(m) => 1 + widget_height(m.child.widget),
        WidgetModel::Root(r) => 1 + root_children_height(r.children),
    }
}

pub open spec fn children_height(s: Seq<WModel>) -> nat
    decreases s,
{
    if s.len() == 0 {
        0
    } else {
        let rest = children_height(s.drop_last());
        let last = widget_height(s.last().widget);
        if rest >= last {
            rest
        } else {
            last
        }
    }
}

pub open spec fn root_children_height(s: Seq<RootChildModel>) -> nat
    decreases s,
{
    if s.len() == 0 {
        0
    } else {
        let rest = root_children_height(s.drop_last());
        let last = widget_height(s.last().widget.widget);
        if rest >= last {
            rest
        } else {
            last
        }
    }
}

/// Every child is at most as tall as the run of children.
proof fn lemma_children_height_bound(s: Seq<WModel>, i: int)
    requires
        0 <= i < s.len(),
    ensures
        widget_height(s[i].widget) <= children_height(s),
    decreases s.len(),
{
    if i == s.len() - 1 {
    } else {
        lemma_children_height_bound(s.drop_last(), i);
    }
}

proof fn lemma_root_children_height_bound(s: Seq<RootChildModel>, i: int)
    requires
        0 <= i < s.len(),
    ensures
        widget_height(s[i].widget.widget) <= root_children_height(s),
    decreases s.len(),
{
    if i == s.len() - 1 {
    } else {
        lemma_root_children_height_bound(s.drop_last(), i);
    }
}

/// Two runs of children of the same heights have the same run height.
proof fn lemma_children_height_congruence(a: Seq<WModel>, b: Seq<WModel>)
    requires
        a.len() == b.len(),
        forall|i: int| 0 <= i < a.len() ==> widget_height((#[trigger] a[i]).widget)
            == widget_height(b[i].widget),
    ensures
        children_height(a) == children_height(b),
    decreases a.len(),
{
    if a.len() > 0 {
        lemma_children_height_congruence(a.drop_last(), b.drop_last());
    }
}

proof fn lemma_root_children_height_congruence(a: Seq<RootChildModel>, b: Seq<RootChildModel>)
    requires
        a.len() == b.len(),
        forall|i: int| 0 <= i < a.len() ==> widget_height((#[trigger] a[i]).widget.widget)
            == widget_height(b[i].widget.widget),
    ensures
        root_children_height(a) == root_children_height(b),
    decreases a.len(),
{
    if a.len() > 0 {
        lemma_root_children_height_congruence(a.drop_last(), b.drop_last());
    }
}

/// The size pass never changes the shape of the tree, so it keeps
/// every height.
proof fn lemma_size_preserves_height(w: WModel, hint: Size)
    ensures
        widget_height(spec_obj_size(w, hint).0.widget) == widget_height(w.widget),
    decreases w, 3int,
{
    if w.requested_size.is_zero() {
        lemma_widget_size_preserves_height(w.widget, hint);
    }
}

proof fn lemma_widget_size_preserves_height(k: WidgetModel, hint: Size)
    ensures
        widget_height(spec_widget_size(k, hint).0) == widget_height(k),
    decreases k, 2int,
{
    match k {
        WidgetModel::Leaf(_) => {},
        WidgetModel::Linear(l) => {
            lemma_linear_prefix_heights(l.children, hint, l.direction, l.children.len() as int);
            let out = spec_linear_size_prefix(l.children, hint, l.direction, l.children.len() as int);
            lemma_children_height_congruence(out.0, l.children);
        },
        WidgetModel::Grid(_) => {},
        WidgetModel::Margin(m) => {
            let horizontal = sat_add_u32(m.margin.left as u32, m.margin.right as u32);
            let vertical = sat_add_u32(m.margin.top as u32, m.margin.bottom as u32);
            let available = Size {
                width: sat_sub_u32(hint.width, horizontal),
                height: sat_sub_u32(hint.height, vertical),
            };
            lemma_size_preserves_height(m.child, available);
        },
        WidgetModel::Root(r) => {
            lemma_root_prefix_heights(r.children, r.children.len() as int);
            let out = spec_root_size_prefix(r.children, r.children.len() as int);
            lemma_root_children_height_congruence(out.0, r.children);
        },
    }
}

/// The linear size fold keeps the length and the heights of the
/// children it has measured.
proof fn lemma_linear_prefix_heights(
    children: Seq<WModel>,
    hint: Size,
    dir: LayoutDirection,
    i: int,
)
    requires
        0 <= i <= children.len(),
    ensures
        ({
            let out = spec_linear_size_prefix(children, hint, dir, i);
            out.0.len() == i && forall|j: int| 0 <= j < i ==> widget_height(
                (#[trigger] out.0[j]).widget,
            ) == widget_height(children[j].widget)
        }),
    decreases children, 2int, i,
{
    if i > 0 {
        lemma_linear_prefix_heights(children, hint, dir, i - 1);
        let prev = spec_linear_size_prefix(children, hint, dir, i - 1);
        lemma_size_preserves_height(children[i - 1], spec_remaining(dir, hint, prev.1));
    }
}

proof fn lemma_root_prefix_heights(children: Seq<RootChildModel>, i: int)
    requires
        0 <= i <= children.len(),
    ensures
        ({
            let out = spec_root_size_prefix(children, i);
            out.0.len() == i && forall|j: int| 0 <= j < i ==> widget_height(
                (#[trigger] out.0[j]).widget.widget,
            ) == widget_height(children[j].widget.widget)
        }),
    decreases children, 2int, i,
{
    if i > 0 {
        lemma_root_prefix_heights(children, i - 1);
        lemma_size_preserves_height(children[i - 1].widget, children[i - 1].dimensions.size);
    }
}

// ------------------------------------------------------------------
// The size pass, as pure functions.

/// What a leaf answers the size pass.
pub open spec fn spec_leaf_size(s: LeafSizing, hint: Size) -> Size {
    match s {
        LeafSizing::Hint => hint,
        LeafSizing::Fixed(sz) => sz,
        LeafSizing::Fill(FillStrategy::Vertical) => Size { width: 0, height: hint.height },
        LeafSizing::Fill(FillStrategy::Horizontal) => Size { width: hint.width, height: 0 },
        LeafSizing::Fill(FillStrategy::Both) => hint,
        LeafSizing::HintWidth(h) => Size { width: hint.width, height: h },
    }
}

/// The space left for a child after the siblings before it, along the
/// main axis.
pub open spec fn spec_remaining(dir: LayoutDirection, hint: Size, acc: Size) -> Size {
    match dir {
        LayoutDirection::Horizontal => Size {
            width: sat_sub_u32(hint.width, acc.width),
            height: hint.height,
        },
        LayoutDirection::Vertical => Size {
            width: hint.width,
            height: sat_sub_u32(hint.height, acc.height),
        },
    }
}

/// A child's size folded into the running total: sum along the main
/// axis, maximum along the cross axis.
pub open spec fn spec_accumulate(dir: LayoutDirection, acc: Size, cs: Size) -> Size {
    match dir {
        LayoutDirection::Horizontal => Size {
            width: sat_add_u32(acc.width, cs.width),
            height: max_u32(acc.height, cs.height),
        },
        LayoutDirection::Vertical => Size {
            width: max_u32(acc.width, cs.width),
            height: sat_add_u32(acc.height, cs.height),
        },
    }
}

/// The size pass on one node: when the memo is still unset, ask the
/// widget and store the answer; otherwise the memo is the answer and
/// the node is left alone.
pub open spec fn spec_obj_size(w: WModel, hint: Size) -> (WModel, Size)
    decreases w, 1int,
{
    if w.requested_size.is_zero() {
        let out = spec_widget_size(w.widget, hint);
        (
            WModel {
                widget: out.0,
                computed_rect: w.computed_rect,
                requested_size: out.1,
                id: w.id,
            },
            out.1,
        )
    } else {
        (w, w.requested_size)
    }
}

/// The size pass on a widget.
pub open spec fn spec_widget_size(k: WidgetModel, hint: Size) -> (WidgetModel, Size)
    decreases k, 0int,
{
    match k {
        WidgetModel::Leaf(l) => (k, spec_leaf_size(l.sizing, hint)),
        WidgetModel::Linear(l) => {
            let out = spec_linear_size_prefix(l.children, hint, l.direction, l.children.len() as int);
            let computed = out.1;
            let result = if !hint.is_zero() {
                computed.spec_min(hint)
            } else {
                computed
            };
            (
                WidgetModel::Linear(
                    LinearModel {
                        children: out.0,
                        direction: l.direction,
                        horizontal_alignment: l.horizontal_alignment,
                        vertical_alignment: l.vertical_alignment,
                        style: l.style,
                        min_size: l.min_size,
                        max_size: l.max_size,
                    },
                ),
                result,
            )
        },
        WidgetModel::Grid(_) => (k, hint),
        WidgetModel::Margin(m) => {
            let horizontal = sat_add_u32(m.margin.left as u32, m.margin.right as u32);
            let vertical = sat_add_u32(m.margin.top as u32, m.margin.bottom as u32);
            let available = Size {
                width: sat_sub_u32(hint.width, horizontal),
                height: sat_sub_u32(hint.height, vertical),
            };
            let out = spec_obj_size(m.child, available);
            (
                WidgetModel::Margin(
                    Box::new(MarginModel { margin: m.margin, child: out.0, style: m.style }),
                ),
                Size {
                    width: sat_add_u32(out.1.width, horizontal),
                    height: sat_add_u32(out.1.height, vertical),
                },
            )
        },
        WidgetModel::Root(r) => {
            let out = spec_root_size_prefix(r.children, r.children.len() as int);
            (WidgetModel::Root(RootModel { children: out.0 }), out.1)
        },
    }
}

/// The size fold of a linear layout over its first `i` children: each
/// child is measured against the hint shrunk by what the children
/// before it took along the main axis.
pub open spec fn spec_linear_size_prefix(
    children: Seq<WModel>,
    hint: Size,
    dir: LayoutDirection,
    i: int,
) -> (Seq<WModel>, Size)
    decreases children, 2int, i,
{
    if i <= 0 || i > children.len() {
        (Seq::empty(), Size { width: 0, height: 0 })
    } else {
        let prev = spec_linear_size_prefix(children, hint, dir, i - 1);
        let out = spec_obj_size(children[i - 1], spec_remaining(dir, hint, prev.1));
        (prev.0.push(out.0), spec_accumulate(dir, prev.1, out.1))
    }
}

/// The size fold of the root layout over its first `i` children: each
/// child is measured against its own dimensions, the totals are
/// summed, and a child whose dimensions were not set yet receives its
/// measured size.
pub open spec fn spec_root_size_prefix(children: Seq<RootChildModel>, i: int) -> (
    Seq<RootChildModel>,
    Size,
)
    decreases children, 2int, i,
{
    if i <= 0 || i > children.len() {
        (Seq::empty(), Size { width: 0, height: 0 })
    } else {
        let prev = spec_root_size_prefix(children, i - 1);
        let c = children[i - 1];
        let out = spec_obj_size(c.widget, c.dimensions.size);
        let dims = if c.dimensions.size.is_zero() {
            Rectangle { top_left: c.dimensions.top_left, size: out.1 }
        } else {
            c.dimensions
        };
        (
            prev.0.push(
                RootChildModel {
                    widget: out.0,
                    dimensions: dims,
                    exclusive: c.exclusive,
                    anchor: c.anchor,
                },
            ),
            prev.1.spec_add(out.1),
        )
    }
}


// ------------------------------------------------------------------
// The executable size pass.

/// What a leaf answers the size pass.
pub fn leaf_size(s: LeafSizing, hint: Size) -> (r: Size)
    ensures
        r == spec_leaf_size(s, hint),
{
    match s {
        LeafSizing::Hint => hint,
        LeafSizing::Fixed(sz) => sz,
        LeafSizing::Fill(FillStrategy::Vertical) => Size { width: 0, height: hint.height },
        LeafSizing::Fill(FillStrategy::Horizontal) => Size { width: hint.width, height: 0 },
        LeafSizing::Fill(FillStrategy::Both) => hint,
        LeafSizing::HintWidth(h) => Size { width: hint.width, height: h },
    }
}

impl WidgetObj {
    /// Asks the widget for its desired size under `hint`.  The first
    /// call computes and memoizes; later calls return the memo,
    /// whatever their hint.
    pub fn size(&mut self, hint: Size) -> (r: Size)
        requires
            wf_node(old(self).model()),
        ensures
            final(self).model() == spec_obj_size(old(self).model(), hint).0,
            r == spec_obj_size(old(self).model(), hint).1,
            wf_node(final(self).model()),
        decreases *old(self),
    {
        if self.requested_size.width == 0 && self.requested_size.height == 0 {
            let s = match &mut self.widget {
                Widget::Leaf(l) => leaf_size(l.sizing, hint),
                Widget::Linear(l) => l.size(hint),
                Widget::Grid(_) => hint,
                Widget::Margin(m) => m.size(hint),
                Widget::Root(r) => r.size(hint),
            };
            self.requested_size = s;
        }
        self.requested_size
    }
}

impl LinearLayout {
    /// The size pass of a linear layout: children are measured in
    /// order, each against the hint shrunk by what the earlier ones
    /// took along the main axis; the total is clamped to the hint
    /// unless the hint is zero.
    pub fn size(&mut self, hint: Size) -> (r: Size)
        requires
            wf_widget(WidgetModel::Linear(old(self).model())),
        ensures
            ({
                let out = spec_widget_size(WidgetModel::Linear(old(self).model()), hint);
                WidgetModel::Linear(final(self).model()) == out.0 && r == out.1 && wf_widget(
                    WidgetModel::Linear(final(self).model()),
                )
            }),
        decreases *old(self),
    {
        let ghost oldm = old(self).model();
        let mut computed = Size { width: 0, height: 0 };
        let n = self.children.len();
        for i in 0..n
            invariant
                n == self.children@.len(),
                n == old(self).children@.len(),
                self.direction == old(self).direction,
                self.horizontal_alignment == old(self).horizontal_alignment,
                self.vertical_alignment == old(self).vertical_alignment,
                self.style == old(self).style,
                self.min_size == old(self).min_size,
                self.max_size == old(self).max_size,
                oldm == old(self).model(),
                wf_widget(WidgetModel::Linear(oldm)),
                forall|j: int| i <= j < n ==> self.children@[j] == old(self).children@[j],
                ({
                    let pre = spec_linear_size_prefix(oldm.children, hint, oldm.direction, i as int);
                    &&& pre.0.len() == i
                    &&& computed == pre.1
                    &&& forall|j: int| 0 <= j < i ==> (#[trigger] self.children@[j]).model()
                        == pre.0[j]
                    &&& forall|j: int| 0 <= j < i ==> wf_node(
                        (#[trigger] self.children@[j]).model(),
                    )
                }),
            decreases n - i,
        {
            let ghost pre = spec_linear_size_prefix(oldm.children, hint, oldm.direction, i as int);
            proof {
                assert(oldm.children[i as int] == old(self).children@[i as int].model());
                assert(wf_node(oldm.children[i as int]));
            }
            let remaining = match self.direction {
                LayoutDirection::Horizontal => Size {
                    width: sub_sat(hint.width, computed.width),
                    height: hint.height,
                },
                LayoutDirection::Vertical => Size {
                    width: hint.width,
                    height: sub_sat(hint.height, computed.height),
                },
            };
            let cs = self.children[i].size(remaining);
            match self.direction {
                LayoutDirection::Horizontal => {
                    computed = Size {
                        width: add_sat(computed.width, cs.width),
                        height: max_px(computed.height, cs.height),
                    };
                },
                LayoutDirection::Vertical => {
                    computed = Size {
                        width: max_px(computed.width, cs.width),
                        height: add_sat(computed.height, cs.height),
                    };
                },
            }
            proof {
                let pre1 = spec_linear_size_prefix(oldm.children, hint, oldm.direction, i + 1);
                assert(pre1.0 == pre.0.push(
                    spec_obj_size(oldm.children[i as int], spec_remaining(oldm.direction, hint, pre.1)).0,
                ));
            }
        }
        let r = if !(hint.width == 0 && hint.height == 0) {
            Size {
                width: min_px(computed.width, hint.width),
                height: min_px(computed.height, hint.height),
            }
        } else {
            computed
        };
        proof {
            let out = spec_widget_size(WidgetModel::Linear(oldm), hint);
            let pre = spec_linear_size_prefix(oldm.children, hint, oldm.direction, n as int);
            assert(oldm.children.len() == n);
            assert(final(self).model().children =~= pre.0);
            assert(WidgetModel::Linear(final(self).model()) == out.0);
        }
        r
    }
}

impl MarginLayout {
    /// The size pass of a margin layout: the child is measured against
    /// the hint shrunk by the margins, and the margins are added back.
    pub fn size(&mut self, hint: Size) -> (r: Size)
        requires
            wf_widget(WidgetModel::Margin(Box::new(old(self).model()))),
        ensures
            ({
                let out = spec_widget_size(WidgetModel::Margin(Box::new(old(self).model())), hint);
                WidgetModel::Margin(Box::new(final(self).model())) == out.0 && r == out.1
                    && wf_widget(WidgetModel::Margin(Box::new(final(self).model())))
            }),
        decreases *old(self),
    {
        let horizontal = add_sat(self.margin.left as u32, self.margin.right as u32);
        let vertical = add_sat(self.margin.top as u32, self.margin.bottom as u32);
        let available = Size {
            width: sub_sat(hint.width, horizontal),
            height: sub_sat(hint.height, vertical),
        };
        let cs = self.child.size(available);
        Size { width: add_sat(cs.width, horizontal), height: add_sat(cs.height, vertical) }
    }
}

impl RootChild {
    /// Sets the rectangle this child is offered.
    fn set_dimensions(&mut self, dims: Rectangle)
        ensures
            *final(self) == (RootChild { dimensions: dims, ..*old(self) }),
    {
        self.dimensions = dims;
    }
}

impl RootLayout {
    /// The size pass of the root layout: every child is measured
    /// against its own dimensions, the sizes are summed, and a child
    /// whose dimensions were not set yet receives its measured size.
    pub fn size(&mut self, _hint: Size) -> (r: Size)
        requires
            wf_widget(WidgetModel::Root(old(self).model())),
        ensures
            ({
                let out = spec_widget_size(WidgetModel::Root(old(self).model()), _hint);
                WidgetModel::Root(final(self).model()) == out.0 && r == out.1 && wf_widget(
                    WidgetModel::Root(final(self).model()),
                )
            }),
        decreases *old(self),
    {
        let ghost oldm = old(self).model();
        let mut total = Size { width: 0, height: 0 };
        let n = self.children.len();
        for i in 0..n
            invariant
                n == self.children@.len(),
                n == old(self).children@.len(),
                oldm == old(self).model(),
                wf_widget(WidgetModel::Root(oldm)),
                forall|j: int| i <= j < n ==> self.children@[j] == old(self).children@[j],
                ({
                    let pre = spec_root_size_prefix(oldm.children, i as int);
                    &&& pre.0.len() == i
                    &&& total == pre.1
                    &&& forall|j: int| 0 <= j < i ==> (#[trigger] self.children@[j]).model()
                        == pre.0[j]
                    &&& forall|j: int| 0 <= j < i ==> wf_node(
                        (#[trigger] self.children@[j]).model().widget,
                    )
                }),
            decreases n - i,
        {
            let ghost pre = spec_root_size_prefix(oldm.children, i as int);
            proof {
                assert(oldm.children[i as int] == old(self).children@[i as int].model());
                assert(wf_node(oldm.children[i as int].widget));
            }
            let dims = self.children[i].dimensions;
            let cs = self.children[i].widget.size(dims.size);
            total = Size {
                width: add_sat(total.width, cs.width),
                height: add_sat(total.height, cs.height),
            };
            if dims.size.width == 0 && dims.size.height == 0 {
                self.children[i].set_dimensions(
                    Rectangle { top_left: dims.top_left, size: cs },
                );
            }
            proof {
                let pre1 = spec_root_size_prefix(oldm.children, i + 1);
                assert(pre1.0 == pre.0.push(
                    {
                        let c = oldm.children[i as int];
                        let out = spec_obj_size(c.widget, c.dimensions.size);
                        RootChildModel {
                            widget: out.0,
                            dimensions: (if c.dimensions.size.is_zero() {
                                Rectangle { top_left: c.dimensions.top_left, size: out.1 }
                            } else {
                                c.dimensions
                            }),
                            exclusive: c.exclusive,
                            anchor: c.anchor,
                        }
                    },
                ));
            }
        }
        proof {
            let out = spec_widget_size(WidgetModel::Root(oldm), _hint);
            let pre = spec_root_size_prefix(oldm.children, n as int);
            assert(oldm.children.len() == n);
            assert(final(self).model().children =~= pre.0);
            assert(WidgetModel::Root(final(self).model()) == out.0);
        }
        total
    }
}


// ------------------------------------------------------------------
// The layout pass, as pure functions.

/// A pixel amount as a coordinate, clamping at the representable
/// range.
pub open spec fn to_i32_sat(v: u32) -> i32 {
    if v > i32::MAX {
        i32::MAX
    } else {
        v as i32
    }
}

/// An unbounded offset as a coordinate, clamping at the representable
/// range.
pub open spec fn int_to_i32_sat(v: int) -> i32 {
    if v > i32::MAX {
        i32::MAX
    } else if v < i32::MIN {
        i32::MIN
    } else {
        v as i32
    }
}

/// The width or height along the main axis.
pub open spec fn main_axis(dir: LayoutDirection, s: Size) -> u32 {
    match dir {
        LayoutDirection::Horizontal => s.width,
        LayoutDirection::Vertical => s.height,
    }
}

/// The width or height across the main axis.
pub open spec fn cross_axis(dir: LayoutDirection, s: Size) -> u32 {
    match dir {
        LayoutDirection::Horizontal => s.height,
        LayoutDirection::Vertical => s.width,
    }
}

/// The leading offset an alignment leaves before the content.
pub open spec fn alignment_offset(a: LayoutAlignment, free: u32) -> i32 {
    match a {
        LayoutAlignment::Center => to_i32_sat(free / 2),
        LayoutAlignment::End => to_i32_sat(free),
        _ => 0,
    }
}

/// The total main-axis length of the children, each measured against
/// the full rectangle (not a shrinking budget: this pass is
/// deliberately asymmetric from the size pass).
pub open spec fn spec_linear_total_prefix(
    children: Seq<WModel>,
    bounds: Size,
    dir: LayoutDirection,
    i: int,
) -> (Seq<WModel>, u32)
    decreases children, 2int, i,
{
    if i <= 0 || i > children.len() {
        (Seq::empty(), 0u32)
    } else {
        let prev = spec_linear_total_prefix(children, bounds, dir, i - 1);
        let out = spec_obj_size(children[i - 1], bounds);
        (prev.0.push(out.0), sat_add_u32(prev.1, main_axis(dir, out.1)))
    }
}

/// The layout pass on one node: the node takes the rectangle, and the
/// wrapped widget distributes it to its children.
pub open spec fn spec_obj_layout(w: WModel, rect: Rectangle) -> WModel
    decreases widget_height(w.widget), 2int, 0int,
{
    WModel {
        widget: spec_widget_layout(w.widget, rect),
        computed_rect: rect,
        requested_size: w.requested_size,
        id: w.id,
    }
}

/// The layout pass on a widget.
pub open spec fn spec_widget_layout(k: WidgetModel, rect: Rectangle) -> WidgetModel
    decreases widget_height(k), 1int, 0int,
    via spec_widget_layout_decreases
{
    match k {
        WidgetModel::Leaf(_) => k,
        WidgetModel::Linear(l) => {
            let st1 = spec_linear_total_prefix(l.children, rect.size, l.direction, l.children.len() as int);
            let main_align = if l.direction == LayoutDirection::Horizontal {
                l.horizontal_alignment
            } else {
                l.vertical_alignment
            };
            let free = sat_sub_u32(main_axis(l.direction, rect.size), st1.1);
            let start_offset = alignment_offset(main_align, free);
            let count = st1.0.len() as int;
            let stretched = if main_align == LayoutAlignment::Stretch && count > 0 {
                (main_axis(l.direction, rect.size) as int / count) as u32
            } else {
                0u32
            };
            let st2 = spec_linear_place_prefix(
                st1.0,
                rect,
                l.direction,
                main_align,
                (if l.direction == LayoutDirection::Horizontal {
                    l.vertical_alignment
                } else {
                    l.horizontal_alignment
                }),
                stretched,
                start_offset,
                count,
            );
            WidgetModel::Linear(
                LinearModel {
                    children: st2.0,
                    direction: l.direction,
                    horizontal_alignment: l.horizontal_alignment,
                    vertical_alignment: l.vertical_alignment,
                    style: l.style,
                    min_size: l.min_size,
                    max_size: l.max_size,
                },
            )
        },
        WidgetModel::Grid(g) => {
            let available_w = sat_sub_u32(rect.size.width, gap_total(g.col_fracs.len() as int, g.gap));
            let available_h = sat_sub_u32(rect.size.height, gap_total(g.row_fracs.len() as int, g.gap));
            let colws = spec_grid_tracks(g.col_fracs, available_w);
            let rowhs = spec_grid_tracks(g.row_fracs, available_h);
            let cells = (if g.children.len() as int <= g.col_fracs.len() as int * g.row_fracs.len() as int {
                g.children.len() as int
            } else {
                g.col_fracs.len() as int * g.row_fracs.len() as int
            });
            WidgetModel::Grid(
                GridModel {
                    children: spec_grid_place_prefix(
                        g.children,
                        rect,
                        colws,
                        rowhs,
                        g.gap,
                        cells,
                    ) + g.children.skip(cells),
                    col_fracs: g.col_fracs,
                    row_fracs: g.row_fracs,
                    gap: g.gap,
                },
            )
        },
        WidgetModel::Margin(m) => {
            let horizontal = sat_add_u32(m.margin.left as u32, m.margin.right as u32);
            let vertical = sat_add_u32(m.margin.top as u32, m.margin.bottom as u32);
            let available = Size {
                width: sat_sub_u32(rect.size.width, horizontal),
                height: sat_sub_u32(rect.size.height, vertical),
            };
            let sized = spec_obj_size(m.child, available);
            let crect = Rectangle {
                top_left: Point {
                    x: sat_add_i32(rect.top_left.x, m.margin.left),
                    y: sat_add_i32(rect.top_left.y, m.margin.top),
                },
                size: sized.1,
            };
            WidgetModel::Margin(
                Box::new(
                    MarginModel {
                        margin: m.margin,
                        child: spec_obj_layout(sized.0, crect),
                        style: m.style,
                    },
                ),
            )
        },
        WidgetModel::Root(r) => WidgetModel::Root(
            RootModel {
                children: spec_root_place_prefix(r.children, rect, r.children.len() as int),
            },
        ),
    }
}

/// Places the first `i` children of a linear layout: each child's
/// size (memoized or measured against the full rectangle) is adjusted
/// by stretching, the cross offset comes from the cross alignment,
/// and the running main offset advances by the child's main length.
pub open spec fn spec_linear_place_prefix(
    children: Seq<WModel>,
    rect: Rectangle,
    dir: LayoutDirection,
    main_align: LayoutAlignment,
    cross_align: LayoutAlignment,
    stretched: u32,
    offset: i32,
    i: int,
) -> (Seq<WModel>, i32)
    decreases children_height(children) + 1, 0int, i,
    via spec_linear_place_prefix_decreases
{
    if i <= 0 || i > children.len() {
        (Seq::empty(), offset)
    } else {
        let prev = spec_linear_place_prefix(
            children,
            rect,
            dir,
            main_align,
            cross_align,
            stretched,
            offset,
            i - 1,
        );
        let sized = spec_obj_size(children[i - 1], rect.size);
        let adjusted = spec_adjust_size(sized.1, dir, main_align, cross_align, stretched, rect.size);
        let cross_free = sat_sub_u32(cross_axis(dir, rect.size), cross_axis(dir, adjusted));
        let cross_offset = alignment_offset(cross_align, cross_free);
        let child_rect = Rectangle {
            top_left: (match dir {
                LayoutDirection::Horizontal => Point {
                    x: sat_add_i32(rect.top_left.x, prev.1),
                    y: sat_add_i32(rect.top_left.y, cross_offset),
                },
                LayoutDirection::Vertical => Point {
                    x: sat_add_i32(rect.top_left.x, cross_offset),
                    y: sat_add_i32(rect.top_left.y, prev.1),
                },
            }),
            size: adjusted,
        };
        (
            prev.0.push(spec_obj_layout(sized.0, child_rect)),
            sat_add_i32(prev.1, to_i32_sat(main_axis(dir, adjusted))),
        )
    }
}

/// A child's size after stretch adjustment.
pub open spec fn spec_adjust_size(
    cs: Size,
    dir: LayoutDirection,
    main_align: LayoutAlignment,
    cross_align: LayoutAlignment,
    stretched: u32,
    bounds: Size,
) -> Size {
    match dir {
        LayoutDirection::Horizontal => Size {
            width: if main_align == LayoutAlignment::Stretch {
                stretched
            } else {
                cs.width
            },
            height: if cross_align == LayoutAlignment::Stretch {
                bounds.height
            } else {
                cs.height
            },
        },
        LayoutDirection::Vertical => Size {
            width: if cross_align == LayoutAlignment::Stretch {
                bounds.width
            } else {
                cs.width
            },
            height: if main_align == LayoutAlignment::Stretch {
                stretched
            } else {
                cs.height
            },
        },
    }
}

/// Places the first `i` root children: anchored at their own
/// rectangle, or re-centered around the container's center.
pub open spec fn spec_root_place_prefix(
    children: Seq<RootChildModel>,
    rect: Rectangle,
    i: int,
) -> Seq<RootChildModel>
    decreases root_children_height(children) + 1, 0int, i,
    via spec_root_place_prefix_decreases
{
    if i <= 0 || i > children.len() {
        Seq::empty()
    } else {
        let prev = spec_root_place_prefix(children, rect, i - 1);
        let c = children[i - 1];
        let target = (match c.anchor {
            Anchor::TopLeft => c.dimensions,
            Anchor::Center => Rectangle {
                top_left: Point {
                    x: int_to_i32_sat(
                        rect.top_left.x + rect.size.width / 2 - c.dimensions.size.width / 2,
                    ),
                    y: int_to_i32_sat(
                        rect.top_left.y + rect.size.height / 2 - c.dimensions.size.height / 2,
                    ),
                },
                size: c.dimensions.size,
            },
        });
        prev.push(
            RootChildModel {
                widget: spec_obj_layout(c.widget, target),
                dimensions: c.dimensions,
                exclusive: c.exclusive,
                anchor: c.anchor,
            },
        )
    }
}

#[via_fn]
proof fn spec_widget_layout_decreases(k: WidgetModel, rect: Rectangle) {
    match k {
        WidgetModel::Linear(l) => {
            lemma_linear_prefix_heights_total(l.children, rect.size, l.direction, l.children.len() as int);
            let st1 = spec_linear_total_prefix(l.children, rect.size, l.direction, l.children.len() as int);
            lemma_children_height_congruence(st1.0, l.children);
        },
        WidgetModel::Margin(m) => {
            let horizontal = sat_add_u32(m.margin.left as u32, m.margin.right as u32);
            let vertical = sat_add_u32(m.margin.top as u32, m.margin.bottom as u32);
            let available = Size {
                width: sat_sub_u32(rect.size.width, horizontal),
                height: sat_sub_u32(rect.size.height, vertical),
            };
            lemma_size_preserves_height(m.child, available);
        },
        _ => {},
    }
}

#[via_fn]
proof fn spec_linear_place_prefix_decreases(
    children: Seq<WModel>,
    rect: Rectangle,
    dir: LayoutDirection,
    main_align: LayoutAlignment,
    cross_align: LayoutAlignment,
    stretched: u32,
    offset: i32,
    i: int,
) {
    if 0 < i <= children.len() {
        lemma_size_preserves_height(children[i - 1], rect.size);
        lemma_children_height_bound(children, i - 1);
    }
}

#[via_fn]
proof fn spec_root_place_prefix_decreases(
    children: Seq<RootChildModel>,
    rect: Rectangle,
    i: int,
) {
    if 0 < i <= children.len() {
        lemma_root_children_height_bound(children, i - 1);
    }
}

/// The linear total fold keeps the length and the heights of the
/// children.
proof fn lemma_linear_prefix_heights_total(
    children: Seq<WModel>,
    bounds: Size,
    dir: LayoutDirection,
    i: int,
)
    requires
        0 <= i <= children.len(),
    ensures
        ({
            let out = spec_linear_total_prefix(children, bounds, dir, i);
            out.0.len() == i && forall|j: int| 0 <= j < i ==> widget_height(
                (#[trigger] out.0[j]).widget,
            ) == widget_height(children[j].widget)
        }),
    decreases i,
{
    if i > 0 {
        lemma_linear_prefix_heights_total(children, bounds, dir, i - 1);
        lemma_size_preserves_height(children[i - 1], bounds);
    }
}


/// An unbounded pixel amount clamped to `u32`.
pub open spec fn u32_clamp(v: int) -> u32 {
    if v > u32::MAX {
        u32::MAX
    } else if v < 0 {
        0u32
    } else {
        v as u32
    }
}

/// The pixels the gaps between `count` tracks take.
pub open spec fn gap_total(count: int, gap: u32) -> u32 {
    u32_clamp((count - 1) * gap)
}

/// The sum of a run of track sizes, unbounded.
pub open spec fn sum_tracks(s: Seq<u32>) -> int
    decreases s.len(),
{
    if s.len() == 0 {
        0
    } else {
        sum_tracks(s.drop_last()) + s.last()
    }
}

/// Each track's share before rounding correction: the available
/// length times its fraction, divided by the fraction total,
/// truncated.
pub open spec fn spec_base_tracks(fracs: Seq<u32>, available: u32) -> Seq<u32> {
    Seq::new(fracs.len(), |i: int| u32_clamp(available * fracs[i] / sum_fracs(fracs)))
}

/// The track sizes of one grid axis: the fractional shares, with the
/// last track absorbing the truncation residual so the tracks sum to
/// exactly the available length.
pub open spec fn spec_grid_tracks(fracs: Seq<u32>, available: u32) -> Seq<u32> {
    let base = spec_base_tracks(fracs, available);
    let actual = sum_tracks(base);
    if actual != available && fracs.len() > 0 {
        base.update(fracs.len() - 1, u32_clamp(base.last() + available - actual))
    } else {
        base
    }
}

/// A coordinate sum clamped to the widest machine range offsets are
/// accumulated in.
pub open spec fn i64_clamp(v: int) -> int {
    if v > i64::MAX {
        i64::MAX as int
    } else if v < i64::MIN {
        i64::MIN as int
    } else {
        v
    }
}

/// Where track `c` starts: the tracks before it plus a gap after
/// each, clamping at the accumulator range.
pub open spec fn track_offset(tracks: Seq<u32>, gap: u32, c: int) -> int
    decreases c,
{
    if c <= 0 {
        0
    } else {
        i64_clamp(
            track_offset(tracks, gap, c - 1) + (if 0 <= c - 1 < tracks.len() {
                tracks[c - 1] as int
            } else {
                0
            }) + gap,
        )
    }
}

/// The rectangle of the grid cell in row `r`, column `c`.
pub open spec fn spec_cell_rect(
    rect: Rectangle,
    colws: Seq<u32>,
    rowhs: Seq<u32>,
    gap: u32,
    r: int,
    c: int,
) -> Rectangle {
    Rectangle {
        top_left: Point {
            x: sat_add_i32(rect.top_left.x, int_to_i32_sat(track_offset(colws, gap, c))),
            y: sat_add_i32(rect.top_left.y, int_to_i32_sat(track_offset(rowhs, gap, r))),
        },
        size: Size {
            width: (if 0 <= c < colws.len() {
                colws[c]
            } else {
                0u32
            }),
            height: (if 0 <= r < rowhs.len() {
                rowhs[r]
            } else {
                0u32
            }),
        },
    }
}

/// Places the first `i` children of a grid, row-major.
pub open spec fn spec_grid_place_prefix(
    children: Seq<WModel>,
    rect: Rectangle,
    colws: Seq<u32>,
    rowhs: Seq<u32>,
    gap: u32,
    i: int,
) -> Seq<WModel>
    decreases children_height(children) + 1, 0int, i,
    via spec_grid_place_prefix_decreases
{
    if i <= 0 || i > children.len() || colws.len() == 0 {
        Seq::empty()
    } else {
        let prev = spec_grid_place_prefix(children, rect, colws, rowhs, gap, i - 1);
        let r = (i - 1) / colws.len() as int;
        let c = (i - 1) % colws.len() as int;
        prev.push(
            spec_obj_layout(children[i - 1], spec_cell_rect(rect, colws, rowhs, gap, r, c)),
        )
    }
}

#[via_fn]
proof fn spec_grid_place_prefix_decreases(
    children: Seq<WModel>,
    rect: Rectangle,
    colws: Seq<u32>,
    rowhs: Seq<u32>,
    gap: u32,
    i: int,
) {
    if 0 < i <= children.len() && colws.len() > 0 {
        lemma_children_height_bound(children, i - 1);
    }
}


// ------------------------------------------------------------------
// Grid track arithmetic.

/// Every fraction is at most the fraction total.
proof fn lemma_frac_le_sum(fracs: Seq<u32>, i: int)
    requires
        0 <= i < fracs.len(),
    ensures
        fracs[i] <= sum_fracs(fracs),
    decreases fracs.len(),
{
    if i == fracs.len() - 1 {
        lemma_sum_fracs_nonneg(fracs.drop_last());
    } else {
        lemma_frac_le_sum(fracs.drop_last(), i);
    }
}

proof fn lemma_sum_fracs_nonneg(fracs: Seq<u32>)
    ensures
        sum_fracs(fracs) >= 0,
    decreases fracs.len(),
{
    if fracs.len() > 0 {
        lemma_sum_fracs_nonneg(fracs.drop_last());
    }
}

proof fn lemma_sum_tracks_nonneg(s: Seq<u32>)
    ensures
        sum_tracks(s) >= 0,
    decreases s.len(),
{
    if s.len() > 0 {
        lemma_sum_tracks_nonneg(s.drop_last());
    }
}

/// Partial sums of fractions never exceed the total.
proof fn lemma_sum_fracs_prefix_le(fracs: Seq<u32>, i: int)
    requires
        0 <= i <= fracs.len(),
    ensures
        sum_fracs(fracs.take(i)) <= sum_fracs(fracs),
    decreases fracs.len() - i,
{
    if i == fracs.len() {
        assert(fracs.take(i) =~= fracs);
    } else {
        lemma_sum_fracs_prefix_le(fracs, i + 1);
        assert(fracs.take(i + 1).drop_last() =~= fracs.take(i));
        assert(fracs.take(i + 1).last() == fracs[i]);
    }
}

/// Quotients may be summed: for a positive divisor, the sum of two
/// truncated quotients is at most the truncated quotient of the sum.
proof fn lemma_div_sum_le(a: int, b: int, t: int)
    requires
        t > 0,
        a >= 0,
        b >= 0,
    ensures
        a / t + b / t <= (a + b) / t,
{
    assert(a / t + b / t <= (a + b) / t) by (nonlinear_arith)
        requires
            t > 0,
            a >= 0,
            b >= 0,
    ;
}

/// The truncated shares of the first `i` tracks sum to at most the
/// available length's share of their fraction total.
proof fn lemma_base_prefix_le(fracs: Seq<u32>, available: u32, i: int)
    requires
        0 <= i <= fracs.len(),
        sum_fracs(fracs) > 0,
    ensures
        sum_tracks(spec_base_tracks(fracs, available).take(i)) <= (available * sum_fracs(
            fracs.take(i),
        )) / sum_fracs(fracs),
        sum_tracks(spec_base_tracks(fracs, available).take(i)) >= 0,
    decreases i,
{
    let t = sum_fracs(fracs);
    let base = spec_base_tracks(fracs, available);
    if i == 0 {
        assert(base.take(0int) =~= Seq::<u32>::empty());
        assert(fracs.take(0int) =~= Seq::<u32>::empty());
    } else {
        lemma_base_prefix_le(fracs, available, i - 1);
        assert(base.take(i).drop_last() =~= base.take(i - 1));
        assert(fracs.take(i).drop_last() =~= fracs.take(i - 1));
        assert(fracs.take(i).last() == fracs[i - 1]);
        lemma_frac_le_sum(fracs, i - 1);
        assert(available * fracs[i - 1] >= 0) by (nonlinear_arith)
            requires
                available >= 0,
                fracs[i - 1] >= 0,
        ;
        assert(available * fracs[i - 1] / t <= available) by {
            assert(available * fracs[i - 1] <= available * t) by (nonlinear_arith)
                requires
                    fracs[i - 1] <= t,
                    available >= 0,
            ;
            assert(available * t / t == available) by (nonlinear_arith)
                requires
                    t > 0,
            ;
            assert(available * fracs[i - 1] / t <= available * t / t) by (nonlinear_arith)
                requires
                    t > 0,
                    available * fracs[i - 1] <= available * t,
                    available * fracs[i - 1] >= 0,
            ;
        }
        assert(base[i - 1] == available * fracs[i - 1] / t);
        assert(sum_fracs(fracs.take(i - 1)) >= 0) by {
            lemma_sum_fracs_nonneg(fracs.take(i - 1));
        }
        assert(available * sum_fracs(fracs.take(i - 1)) >= 0) by (nonlinear_arith)
            requires
                available >= 0,
                sum_fracs(fracs.take(i - 1)) >= 0,
        ;
        lemma_div_sum_le(available * sum_fracs(fracs.take(i - 1)), available * fracs[i - 1], t);
        assert(available * sum_fracs(fracs.take(i - 1)) + available * fracs[i - 1] == available
            * sum_fracs(fracs.take(i))) by (nonlinear_arith)
            requires
                sum_fracs(fracs.take(i - 1)) + fracs[i - 1] == sum_fracs(fracs.take(i)),
        ;
    }
}

/// The truncated shares sum to at most the available length.
proof fn lemma_base_sum_le(fracs: Seq<u32>, available: u32)
    requires
        sum_fracs(fracs) > 0,
    ensures
        0 <= sum_tracks(spec_base_tracks(fracs, available)) <= available,
{
    let t = sum_fracs(fracs);
    lemma_base_prefix_le(fracs, available, fracs.len() as int);
    assert(fracs.take(fracs.len() as int) =~= fracs);
    assert(spec_base_tracks(fracs, available).take(fracs.len() as int) =~= spec_base_tracks(
        fracs,
        available,
    ));
    assert(available * t / t == available) by (nonlinear_arith)
        requires
            t > 0,
    ;
}

/// Replacing the last track changes the sum by the difference.
proof fn lemma_sum_tracks_update_last(s: Seq<u32>, v: u32)
    requires
        s.len() > 0,
    ensures
        sum_tracks(s.update(s.len() - 1, v)) == sum_tracks(s) - s.last() + v,
{
    let u = s.update(s.len() - 1, v);
    assert(u.drop_last() =~= s.drop_last());
    assert(u.last() == v);
}

/// Grid rounding: on each axis the track sizes sum to exactly the
/// available length, for any fractions with a positive total and any
/// available length — the last track absorbs the truncation residual.
pub proof fn lemma_grid_tracks_sum(fracs: Seq<u32>, available: u32)
    requires
        fracs.len() > 0,
        sum_fracs(fracs) > 0,
    ensures
        spec_grid_tracks(fracs, available).len() == fracs.len(),
        sum_tracks(spec_grid_tracks(fracs, available)) == available,
        forall|i: int| 0 <= i < fracs.len() ==> #[trigger] spec_grid_tracks(fracs, available)[i]
            <= available,
{
    let base = spec_base_tracks(fracs, available);
    let actual = sum_tracks(base);
    lemma_base_sum_le(fracs, available);
    if actual != available {
        lemma_sum_tracks_update_last(base, u32_clamp(base.last() + available - actual));
        assert(base.drop_last() =~= base.take(fracs.len() - 1));
        lemma_base_prefix_le(fracs, available, fracs.len() - 1);
        lemma_sum_tracks_nonneg(base.take(fracs.len() - 1));
        assert(sum_tracks(base.drop_last()) >= 0);
        assert(base.last() + available - actual <= available);
        assert(u32_clamp(base.last() + available - actual) == base.last() + available - actual);
    }
    assert forall|i: int| 0 <= i < fracs.len() implies #[trigger] spec_grid_tracks(
        fracs,
        available,
    )[i] <= available by {
        let t = sum_fracs(fracs);
        lemma_frac_le_sum(fracs, i);
        assert(available * fracs[i] >= 0) by (nonlinear_arith)
            requires
                available >= 0,
                fracs[i] >= 0,
        ;
        assert(available * fracs[i] <= available * t) by (nonlinear_arith)
            requires
                fracs[i] <= t,
                available >= 0,
        ;
        assert(available * t / t == available) by (nonlinear_arith)
            requires
                t > 0,
        ;
        assert(available * fracs[i] / t <= available * t / t) by (nonlinear_arith)
            requires
                t > 0,
                available * fracs[i] <= available * t,
                available * fracs[i] >= 0,
        ;
        if spec_grid_tracks(fracs, available) != spec_base_tracks(fracs, available) {
            let base2 = spec_base_tracks(fracs, available);
            let actual2 = sum_tracks(base2);
            if i == fracs.len() - 1 {
                lemma_base_prefix_le(fracs, available, fracs.len() - 1);
                assert(base2.drop_last() =~= base2.take(fracs.len() - 1));
                lemma_sum_tracks_nonneg(base2.take(fracs.len() - 1));
            }
        }
    }
}

/// The track sizes of one grid axis.
pub fn grid_tracks(fracs: &Vec<u32>, available: u32) -> (r: Vec<u32>)
    requires
        fracs@.len() > 0,
        sum_fracs(fracs@) > 0,
        sum_fracs(fracs@) <= u32::MAX,
    ensures
        r@ == spec_grid_tracks(fracs@, available),
        r@.len() == fracs@.len(),
{
    let n = fracs.len();
    let mut total: u64 = 0;
    for i in 0..n
        invariant
            n == fracs@.len(),
            sum_fracs(fracs@) > 0,
            sum_fracs(fracs@) <= u32::MAX,
            total == sum_fracs(fracs@.take(i as int)),
            total <= u32::MAX as u64,
    {
        proof {
            assert(fracs@.take(i + 1).drop_last() =~= fracs@.take(i as int));
            assert(fracs@.take(i + 1).last() == fracs@[i as int]);
            lemma_sum_fracs_prefix_le(fracs@, i + 1);
        }
        total = total + fracs[i] as u64;
    }
    proof {
        assert(fracs@.take(n as int) =~= fracs@);
    }
    let total32: u64 = total;
    let mut base: Vec<u32> = Vec::new();
    let ghost sbase = spec_base_tracks(fracs@, available);
    for i in 0..n
        invariant
            n == fracs@.len(),
            total32 == sum_fracs(fracs@),
            0 < total32 <= u32::MAX,
            base@.len() == i,
            sbase == spec_base_tracks(fracs@, available),
            forall|j: int| 0 <= j < i ==> base@[j] == sbase[j],
    {
        proof {
            assert(available as u64 as int * (fracs@[i as int] as int) <= u64::MAX) by (nonlinear_arith)
                requires
                    available <= u32::MAX,
                    fracs@[i as int] <= u32::MAX,
            ;
            lemma_frac_le_sum(fracs@, i as int);
        }
        let w64: u64 = available as u64 * fracs[i] as u64 / total32;
        proof {
            assert(available as int * fracs@[i as int] as int <= available as int * total32 as int)
                by (nonlinear_arith)
                requires
                    fracs@[i as int] <= total32,
                    available >= 0,
            ;
            assert(available as int * total32 as int / total32 as int == available) by (nonlinear_arith)
                requires
                    total32 > 0,
            ;
            assert(available as int * fracs@[i as int] as int / total32 as int <= available as int
                * total32 as int / total32 as int) by (nonlinear_arith)
                requires
                    total32 > 0,
                    available as int * fracs@[i as int] as int <= available as int
                        * total32 as int,
                    available as int * fracs@[i as int] as int >= 0,
            ;
            assert(available as int * fracs@[i as int] >= 0) by (nonlinear_arith)
                requires
                    available >= 0,
                    fracs@[i as int] >= 0,
            ;
        }
        let w: u32 = w64 as u32;
        proof {
            assert(w == sbase[i as int]);
        }
        base.push(w);
    }
    proof {
        lemma_base_sum_le(fracs@, available);
    }
    let mut actual: u32 = 0;
    for i in 0..n
        invariant
            n == fracs@.len(),
            sum_fracs(fracs@) > 0,
            base@.len() == n,
            sbase == spec_base_tracks(fracs@, available),
            forall|j: int| 0 <= j < n ==> base@[j] == sbase[j],
            actual == sum_tracks(sbase.take(i as int)),
            0 <= sum_tracks(sbase.take(i as int)) <= available,
    {
        proof {
            assert(sbase.take(i + 1).drop_last() =~= sbase.take(i as int));
            assert(sbase.take(i + 1).last() == sbase[i as int]);
            lemma_base_take_le(fracs@, available, i + 1);
            lemma_sum_tracks_nonneg(sbase.take(i + 1));
        }
        actual = actual + base[i];
    }
    proof {
        assert(sbase.take(n as int) =~= sbase);
        assert(base@ =~= sbase);
    }
    if actual != available {
        let last = base[n - 1];
        proof {
            assert(sbase.drop_last() =~= sbase.take(n - 1));
            lemma_base_take_le(fracs@, available, n - 1);
            lemma_sum_tracks_nonneg(sbase.take(n - 1));
        }
        let fixed: u32 = last + (available - actual);
        base.pop();
        base.push(fixed);
        proof {
            assert(base@ =~= spec_grid_tracks(fracs@, available));
        }
    } else {
        proof {
            assert(base@ =~= spec_grid_tracks(fracs@, available));
        }
    }
    base
}

/// Any prefix of the truncated shares sums to at most the available
/// length.
proof fn lemma_base_take_le(fracs: Seq<u32>, available: u32, i: int)
    requires
        0 <= i <= fracs.len(),
        sum_fracs(fracs) > 0,
    ensures
        0 <= sum_tracks(spec_base_tracks(fracs, available).take(i)) <= available,
{
    let t = sum_fracs(fracs);
    lemma_base_prefix_le(fracs, available, i);
    lemma_sum_tracks_nonneg(spec_base_tracks(fracs, available).take(i));
    lemma_sum_fracs_prefix_le(fracs, i);
    lemma_sum_fracs_nonneg(fracs.take(i));
    assert(available * sum_fracs(fracs.take(i)) <= available * t) by (nonlinear_arith)
        requires
            sum_fracs(fracs.take(i)) <= t,
            available >= 0,
    ;
    assert(available * t / t == available) by (nonlinear_arith)
        requires
            t > 0,
    ;
    assert(available * sum_fracs(fracs.take(i)) / t <= available * t / t) by (nonlinear_arith)
        requires
            t > 0,
            available * sum_fracs(fracs.take(i)) <= available * t,
            available * sum_fracs(fracs.take(i)) >= 0,
    ;
    assert(available * sum_fracs(fracs.take(i)) >= 0) by (nonlinear_arith)
        requires
            available >= 0,
            sum_fracs(fracs.take(i)) >= 0,
    ;
}


// ------------------------------------------------------------------
// The executable layout pass.

/// A pixel amount as a coordinate.
pub fn to_i32_px(v: u32) -> (r: i32)
    ensures
        r == to_i32_sat(v),
{
    if v > i32::MAX as u32 {
        i32::MAX
    } else {
        v as i32
    }
}

/// The leading offset an alignment leaves before the content.
pub fn align_offset(a: LayoutAlignment, free: u32) -> (r: i32)
    ensures
        r == alignment_offset(a, free),
{
    match a {
        LayoutAlignment::Center => to_i32_px(free / 2),
        LayoutAlignment::End => to_i32_px(free),
        _ => 0,
    }
}

impl WidgetObj {
    /// The layout pass: the node takes its final rectangle and the
    /// wrapped widget places its children inside it.
    pub fn layout(&mut self, rect: Rectangle)
        requires
            wf_node(old(self).model()),
        ensures
            final(self).model() == spec_obj_layout(old(self).model(), rect),
            wf_node(final(self).model()),
        decreases widget_height(old(self).model().widget), 1int,
    {
        self.computed_rect = rect;
        match &mut self.widget {
            Widget::Leaf(_) => {},
            Widget::Linear(l) => l.layout(rect),
            Widget::Grid(g) => g.layout(rect),
            Widget::Margin(m) => m.layout(rect),
            Widget::Root(r) => r.layout(rect),
        }
    }
}

impl MarginLayout {
    /// The layout pass of a margin layout: the child is measured
    /// against the rectangle shrunk by the margins and placed at the
    /// top-left corner of the inset area.
    pub fn layout(&mut self, rect: Rectangle)
        requires
            wf_widget(WidgetModel::Margin(Box::new(old(self).model()))),
        ensures
            WidgetModel::Margin(Box::new(final(self).model())) == spec_widget_layout(
                WidgetModel::Margin(Box::new(old(self).model())),
                rect,
            ),
            wf_widget(WidgetModel::Margin(Box::new(final(self).model()))),
        decreases widget_height(WidgetModel::Margin(Box::new(old(self).model()))), 0int,
    {
        let horizontal = add_sat(self.margin.left as u32, self.margin.right as u32);
        let vertical = add_sat(self.margin.top as u32, self.margin.bottom as u32);
        let available = Size {
            width: sub_sat(rect.size.width, horizontal),
            height: sub_sat(rect.size.height, vertical),
        };
        let cs = self.child.size(available);
        let child_rect = Rectangle {
            top_left: Point {
                x: add_sat_i32(rect.top_left.x, self.margin.left),
                y: add_sat_i32(rect.top_left.y, self.margin.top),
            },
            size: cs,
        };
        proof {
            lemma_size_preserves_height(old(self).model().child, available);
        }
        self.child.layout(child_rect);
    }
}

impl LinearLayout {
    /// The layout pass of a linear layout: the children's total main
    /// length (each measured against the full rectangle) fixes the
    /// leading offset by the main alignment; children are then placed
    /// in order, stretched children sharing the rectangle equally.
    pub fn layout(&mut self, rect: Rectangle)
        requires
            wf_widget(WidgetModel::Linear(old(self).model())),
        ensures
            WidgetModel::Linear(final(self).model()) == spec_widget_layout(
                WidgetModel::Linear(old(self).model()),
                rect,
            ),
            wf_widget(WidgetModel::Linear(final(self).model())),
        decreases children_height(old(self).model().children) + 1, 0int,
    {
        let ghost oldm = old(self).model();
        let n = self.children.len();
        let mut total: u32 = 0;
        for i in 0..n
            invariant
                n == self.children@.len(),
                n == old(self).children@.len(),
                self.direction == old(self).direction,
                self.horizontal_alignment == old(self).horizontal_alignment,
                self.vertical_alignment == old(self).vertical_alignment,
                self.style == old(self).style,
                self.min_size == old(self).min_size,
                self.max_size == old(self).max_size,
                oldm == old(self).model(),
                wf_widget(WidgetModel::Linear(oldm)),
                forall|j: int| i <= j < n ==> self.children@[j] == old(self).children@[j],
                ({
                    let pre = spec_linear_total_prefix(oldm.children, rect.size, oldm.direction, i as int);
                    &&& pre.0.len() == i
                    &&& total == pre.1
                    &&& forall|j: int| 0 <= j < i ==> (#[trigger] self.children@[j]).model()
                        == pre.0[j]
                    &&& forall|j: int| 0 <= j < i ==> wf_node(
                        (#[trigger] self.children@[j]).model(),
                    )
                }),
            decreases n - i,
        {
            let ghost pre = spec_linear_total_prefix(oldm.children, rect.size, oldm.direction, i as int);
            proof {
                assert(oldm.children[i as int] == old(self).children@[i as int].model());
                assert(wf_node(oldm.children[i as int]));
                lemma_children_height_bound(oldm.children, i as int);
            }
            let cs = self.children[i].size(rect.size);
            let step = match self.direction {
                LayoutDirection::Horizontal => cs.width,
                LayoutDirection::Vertical => cs.height,
            };
            total = add_sat(total, step);
            proof {
                let pre1 = spec_linear_total_prefix(oldm.children, rect.size, oldm.direction, i + 1);
                assert(pre1.0 == pre.0.push(spec_obj_size(oldm.children[i as int], rect.size).0));
            }
        }
        let ghost st1 = spec_linear_total_prefix(
            oldm.children,
            rect.size,
            oldm.direction,
            oldm.children.len() as int,
        );
        proof {
            assert(oldm.children.len() == n);
            lemma_linear_prefix_heights_total(
                oldm.children,
                rect.size,
                oldm.direction,
                n as int,
            );
        }
        let main_align = if self.direction == LayoutDirection::Horizontal {
            self.horizontal_alignment
        } else {
            self.vertical_alignment
        };
        let cross_align = if self.direction == LayoutDirection::Horizontal {
            self.vertical_alignment
        } else {
            self.horizontal_alignment
        };
        let rect_main = match self.direction {
            LayoutDirection::Horizontal => rect.size.width,
            LayoutDirection::Vertical => rect.size.height,
        };
        let free = sub_sat(rect_main, total);
        let mut main_offset = align_offset(main_align, free);
        let ghost start_offset = main_offset;
        let stretched: u32 = if main_align == LayoutAlignment::Stretch && n > 0 {
            (rect_main as u64 / n as u64) as u32
        } else {
            0
        };
        for i in 0..n
            invariant
                n == self.children@.len(),
                n == old(self).children@.len(),
                self.direction == old(self).direction,
                self.horizontal_alignment == old(self).horizontal_alignment,
                self.vertical_alignment == old(self).vertical_alignment,
                self.style == old(self).style,
                self.min_size == old(self).min_size,
                self.max_size == old(self).max_size,
                oldm == old(self).model(),
                st1 == spec_linear_total_prefix(
                    oldm.children,
                    rect.size,
                    oldm.direction,
                    oldm.children.len() as int,
                ),
                st1.0.len() == n,
                main_align == (if oldm.direction == LayoutDirection::Horizontal {
                    oldm.horizontal_alignment
                } else {
                    oldm.vertical_alignment
                }),
                cross_align == (if oldm.direction == LayoutDirection::Horizontal {
                    oldm.vertical_alignment
                } else {
                    oldm.horizontal_alignment
                }),
                stretched == (if main_align == LayoutAlignment::Stretch && n > 0 {
                    ((main_axis(oldm.direction, rect.size) as int / n as int)) as u32
                } else {
                    0u32
                }),
                forall|j: int| i <= j < n ==> (#[trigger] self.children@[j]).model() == st1.0[j],
                forall|j: int| i <= j < n ==> wf_node((#[trigger] self.children@[j]).model()),
                forall|j: int| i <= j < n ==> widget_height(
                    (#[trigger] self.children@[j]).model().widget,
                ) == widget_height(oldm.children[j].widget),
                ({
                    let pl = spec_linear_place_prefix(
                        st1.0,
                        rect,
                        oldm.direction,
                        main_align,
                        cross_align,
                        stretched,
                        start_offset,
                        i as int,
                    );
                    &&& pl.0.len() == i
                    &&& main_offset == pl.1
                    &&& forall|j: int| 0 <= j < i ==> (#[trigger] self.children@[j]).model()
                        == pl.0[j]
                    &&& forall|j: int| 0 <= j < i ==> wf_node(
                        (#[trigger] self.children@[j]).model(),
                    )
                }),
            decreases n - i,
        {
            let ghost pl = spec_linear_place_prefix(
                st1.0,
                rect,
                oldm.direction,
                main_align,
                cross_align,
                stretched,
                start_offset,
                i as int,
            );
            proof {
                lemma_children_height_bound(oldm.children, i as int);
            }
            let mut csize = self.children[i].size(rect.size);
            match self.direction {
                LayoutDirection::Horizontal => {
                    if cross_align == LayoutAlignment::Stretch {
                        csize.height = rect.size.height;
                    }
                    if main_align == LayoutAlignment::Stretch {
                        csize.width = stretched;
                    }
                },
                LayoutDirection::Vertical => {
                    if cross_align == LayoutAlignment::Stretch {
                        csize.width = rect.size.width;
                    }
                    if main_align == LayoutAlignment::Stretch {
                        csize.height = stretched;
                    }
                },
            }
            let rect_cross = match self.direction {
                LayoutDirection::Horizontal => rect.size.height,
                LayoutDirection::Vertical => rect.size.width,
            };
            let csize_cross = match self.direction {
                LayoutDirection::Horizontal => csize.height,
                LayoutDirection::Vertical => csize.width,
            };
            let cross_free = sub_sat(rect_cross, csize_cross);
            let cross_offset = align_offset(cross_align, cross_free);
            let child_rect = match self.direction {
                LayoutDirection::Horizontal => Rectangle {
                    top_left: Point {
                        x: add_sat_i32(rect.top_left.x, main_offset),
                        y: add_sat_i32(rect.top_left.y, cross_offset),
                    },
                    size: csize,
                },
                LayoutDirection::Vertical => Rectangle {
                    top_left: Point {
                        x: add_sat_i32(rect.top_left.x, cross_offset),
                        y: add_sat_i32(rect.top_left.y, main_offset),
                    },
                    size: csize,
                },
            };
            proof {
                lemma_size_preserves_height(st1.0[i as int], rect.size);
            }
            self.children[i].layout(child_rect);
            let csize_main = match self.direction {
                LayoutDirection::Horizontal => csize.width,
                LayoutDirection::Vertical => csize.height,
            };
            main_offset = add_sat_i32(main_offset, to_i32_px(csize_main));
            proof {
                let pl1 = spec_linear_place_prefix(
                    st1.0,
                    rect,
                    oldm.direction,
                    main_align,
                    cross_align,
                    stretched,
                    start_offset,
                    i + 1,
                );
                let sized = spec_obj_size(st1.0[i as int], rect.size);
                let adjusted = spec_adjust_size(
                    sized.1,
                    oldm.direction,
                    main_align,
                    cross_align,
                    stretched,
                    rect.size,
                );
                assert(csize == adjusted);
                assert(pl1.0 == pl.0.push(
                    spec_obj_layout(sized.0, spec_child_rect_of(rect, oldm.direction, pl.1, alignment_offset(cross_align, sat_sub_u32(cross_axis(oldm.direction, rect.size), cross_axis(oldm.direction, adjusted))), adjusted)),
                ));
            }
        }
        proof {
            let out = spec_widget_layout(WidgetModel::Linear(oldm), rect);
            let pl = spec_linear_place_prefix(
                st1.0,
                rect,
                oldm.direction,
                main_align,
                cross_align,
                stretched,
                start_offset,
                n as int,
            );
            assert(final(self).model().children =~= pl.0);
            assert(WidgetModel::Linear(final(self).model()) == out);
        }
    }
}

/// The rectangle a linear child is placed into.
pub open spec fn spec_child_rect_of(
    rect: Rectangle,
    dir: LayoutDirection,
    main_offset: i32,
    cross_offset: i32,
    size: Size,
) -> Rectangle {
    Rectangle {
        top_left: (match dir {
            LayoutDirection::Horizontal => Point {
                x: sat_add_i32(rect.top_left.x, main_offset),
                y: sat_add_i32(rect.top_left.y, cross_offset),
            },
            LayoutDirection::Vertical => Point {
                x: sat_add_i32(rect.top_left.x, cross_offset),
                y: sat_add_i32(rect.top_left.y, main_offset),
            },
        }),
        size,
    }
}


/// Accumulates a non-negative step into an offset, clamping at the
/// accumulator range.
fn add_sat_i64(a: i64, b: i64) -> (r: i64)
    requires
        b >= 0,
    ensures
        r as int == i64_clamp(a as int + b as int),
{
    if a > i64::MAX - b {
        i64::MAX
    } else {
        a + b
    }
}

/// An accumulated offset as a coordinate.
fn i64_to_i32(v: i64) -> (r: i32)
    ensures
        r as int == int_to_i32_sat(v as int),
{
    if v > i32::MAX as i64 {
        i32::MAX
    } else if v < i32::MIN as i64 {
        i32::MIN
    } else {
        v as i32
    }
}

/// Where track `c` starts.
fn track_offset_px(tracks: &Vec<u32>, gap: u32, c: usize) -> (r: i64)
    requires
        c <= tracks@.len(),
    ensures
        r as int == track_offset(tracks@, gap, c as int),
{
    let mut off: i64 = 0;
    for k in 0..c
        invariant
            c <= tracks@.len(),
            off as int == track_offset(tracks@, gap, k as int),
            off >= 0,
    {
        off = add_sat_i64(off, tracks[k] as i64 + gap as i64);
    }
    off
}

/// The pixels the gaps between `count` tracks take.
fn gap_total_px(count: usize, gap: u32) -> (r: u32)
    requires
        count > 0,
    ensures
        r == gap_total(count as int, gap),
{
    proof {
        let c1: int = (count - 1) as u128 as int;
        let g: int = gap as int;
        assert(c1 * g < u128::MAX) by (nonlinear_arith)
            requires
                0 <= c1 < 0x1_0000_0000_0000_0000,
                0 <= g < 0x1_0000_0000,
        ;
    }
    let wide: u128 = (count - 1) as u128 * gap as u128;
    if wide > u32::MAX as u128 {
        u32::MAX
    } else {
        wide as u32
    }
}

impl GridLayout {
    /// The layout pass of a grid: the rectangle minus the gaps splits
    /// into fractional tracks (the last track absorbing the rounding
    /// residual), and children fill the cells row-major.  Children
    /// beyond the cells are left where they are.
    pub fn layout(&mut self, rect: Rectangle)
        requires
            wf_widget(WidgetModel::Grid(old(self).model())),
        ensures
            WidgetModel::Grid(final(self).model()) == spec_widget_layout(
                WidgetModel::Grid(old(self).model()),
                rect,
            ),
            wf_widget(WidgetModel::Grid(final(self).model())),
        decreases children_height(old(self).model().children) + 1, 0int,
    {
        let ghost oldm = old(self).model();
        let cols_n = self.col_fracs.len();
        let rows_n = self.row_fracs.len();
        let gap = self.gap;
        let available_w = sub_sat(rect.size.width, gap_total_px(cols_n, gap));
        let available_h = sub_sat(rect.size.height, gap_total_px(rows_n, gap));
        let colws = grid_tracks(&self.col_fracs, available_w);
        let rowhs = grid_tracks(&self.row_fracs, available_h);
        let n = self.children.len();
        proof {
            let a: int = cols_n as int;
            let b: int = rows_n as int;
            assert(a * b < u128::MAX) by (nonlinear_arith)
                requires
                    0 <= a < 0x1_0000_0000_0000_0000,
                    0 <= b < 0x1_0000_0000_0000_0000,
            ;
        }
        let wide_cells: u128 = cols_n as u128 * rows_n as u128;
        let cells: usize = if (n as u128) <= wide_cells {
            n
        } else {
            wide_cells as usize
        };
        proof {
            assert(cells as int == (if oldm.children.len() as int <= oldm.col_fracs.len() as int
                * oldm.row_fracs.len() as int {
                oldm.children.len() as int
            } else {
                oldm.col_fracs.len() as int * oldm.row_fracs.len() as int
            })) by (nonlinear_arith)
                requires
                    wide_cells == cols_n as int * rows_n as int,
                    cells as int == (if n as u128 <= wide_cells {
                        n as int
                    } else {
                        wide_cells as int
                    }),
                    oldm.children.len() == n as int,
                    oldm.col_fracs.len() == cols_n as int,
                    oldm.row_fracs.len() == rows_n as int,
            ;
        }
        for idx in 0..cells
            invariant
                n == self.children@.len(),
                n == old(self).children@.len(),
                cells <= n,
                cols_n == self.col_fracs@.len(),
                rows_n == self.row_fracs@.len(),
                cols_n > 0,
                cells as int <= cols_n as int * rows_n as int,
                self.col_fracs@ == old(self).col_fracs@,
                self.row_fracs@ == old(self).row_fracs@,
                gap == old(self).gap,
                self.gap == old(self).gap,
                oldm == old(self).model(),
                wf_widget(WidgetModel::Grid(oldm)),
                colws@ == spec_grid_tracks(
                    oldm.col_fracs,
                    sat_sub_u32(rect.size.width, gap_total(oldm.col_fracs.len() as int, gap)),
                ),
                rowhs@ == spec_grid_tracks(
                    oldm.row_fracs,
                    sat_sub_u32(rect.size.height, gap_total(oldm.row_fracs.len() as int, gap)),
                ),
                colws@.len() == cols_n,
                rowhs@.len() == rows_n,
                forall|j: int| idx <= j < n ==> self.children@[j] == old(self).children@[j],
                ({
                    let pl = spec_grid_place_prefix(
                        oldm.children,
                        rect,
                        colws@,
                        rowhs@,
                        gap,
                        idx as int,
                    );
                    &&& pl.len() == idx
                    &&& forall|j: int| 0 <= j < idx ==> (#[trigger] self.children@[j]).model()
                        == pl[j]
                    &&& forall|j: int| 0 <= j < idx ==> wf_node(
                        (#[trigger] self.children@[j]).model(),
                    )
                }),
            decreases cells - idx,
        {
            let ghost pl = spec_grid_place_prefix(
                oldm.children,
                rect,
                colws@,
                rowhs@,
                gap,
                idx as int,
            );
            let r = idx / cols_n;
            let c = idx % cols_n;
            proof {
                assert(oldm.children[idx as int] == old(self).children@[idx as int].model());
                assert(wf_node(oldm.children[idx as int]));
                lemma_children_height_bound(oldm.children, idx as int);
            }
            let xoff = track_offset_px(&colws, gap, c);
            let yoff = track_offset_px(&rowhs, gap, if r <= rows_n { r } else { rows_n });
            proof {
                assert(r < rows_n) by (nonlinear_arith)
                    requires
                        idx < cells,
                        cells as int <= cols_n as int * rows_n as int,
                        r == idx as int / cols_n as int,
                        cols_n > 0,
                ;
                assert(c < cols_n);
            }
            let cell_rect = Rectangle {
                top_left: Point {
                    x: add_sat_i32(rect.top_left.x, i64_to_i32(xoff)),
                    y: add_sat_i32(rect.top_left.y, i64_to_i32(yoff)),
                },
                size: Size { width: colws[c], height: rowhs[r] },
            };
            proof {
                assert(cell_rect == spec_cell_rect(
                    rect,
                    colws@,
                    rowhs@,
                    gap,
                    r as int,
                    c as int,
                ));
            }
            self.children[idx].layout(cell_rect);
            proof {
                let pl1 = spec_grid_place_prefix(
                    oldm.children,
                    rect,
                    colws@,
                    rowhs@,
                    gap,
                    idx + 1,
                );
                assert(pl1 == pl.push(
                    spec_obj_layout(
                        oldm.children[idx as int],
                        spec_cell_rect(rect, colws@, rowhs@, gap, r as int, c as int),
                    ),
                ));
            }
        }
        proof {
            let out = spec_widget_layout(WidgetModel::Grid(oldm), rect);
            let ghost cellsg = (if oldm.children.len() as int <= oldm.col_fracs.len() as int
                * oldm.row_fracs.len() as int {
                oldm.children.len() as int
            } else {
                oldm.col_fracs.len() as int * oldm.row_fracs.len() as int
            });
            let pl = spec_grid_place_prefix(oldm.children, rect, colws@, rowhs@, gap, cellsg);
            assert(final(self).model().children =~= pl + oldm.children.skip(cellsg));
            assert(WidgetModel::Grid(final(self).model()) == out);
        }
    }
}

impl RootLayout {
    /// The layout pass of the root: each child is laid out in its own
    /// rectangle, or re-centered around the container's center when
    /// anchored there.
    pub fn layout(&mut self, rect: Rectangle)
        requires
            wf_widget(WidgetModel::Root(old(self).model())),
        ensures
            WidgetModel::Root(final(self).model()) == spec_widget_layout(
                WidgetModel::Root(old(self).model()),
                rect,
            ),
            wf_widget(WidgetModel::Root(final(self).model())),
        decreases root_children_height(old(self).model().children) + 1, 0int,
    {
        let ghost oldm = old(self).model();
        let n = self.children.len();
        for i in 0..n
            invariant
                n == self.children@.len(),
                n == old(self).children@.len(),
                oldm == old(self).model(),
                wf_widget(WidgetModel::Root(oldm)),
                forall|j: int| i <= j < n ==> self.children@[j] == old(self).children@[j],
                ({
                    let pl = spec_root_place_prefix(oldm.children, rect, i as int);
                    &&& pl.len() == i
                    &&& forall|j: int| 0 <= j < i ==> (#[trigger] self.children@[j]).model()
                        == pl[j]
                    &&& forall|j: int| 0 <= j < i ==> wf_node(
                        (#[trigger] self.children@[j]).model().widget,
                    )
                }),
            decreases n - i,
        {
            let ghost pl = spec_root_place_prefix(oldm.children, rect, i as int);
            proof {
                assert(oldm.children[i as int] == old(self).children@[i as int].model());
                assert(wf_node(oldm.children[i as int].widget));
                lemma_root_children_height_bound(oldm.children, i as int);
            }
            let dims = self.children[i].dimensions;
            let target = match self.children[i].anchor {
                Anchor::TopLeft => dims,
                Anchor::Center => {
                    let cx: i64 = rect.top_left.x as i64 + (rect.size.width / 2) as i64 - (
                    dims.size.width / 2) as i64;
                    let cy: i64 = rect.top_left.y as i64 + (rect.size.height / 2) as i64 - (
                    dims.size.height / 2) as i64;
                    Rectangle {
                        top_left: Point { x: i64_to_i32(cx), y: i64_to_i32(cy) },
                        size: dims.size,
                    }
                },
            };
            self.children[i].widget.layout(target);
            proof {
                let pl1 = spec_root_place_prefix(oldm.children, rect, i + 1);
                let c = oldm.children[i as int];
                assert(pl1 == pl.push(
                    RootChildModel {
                        widget: spec_obj_layout(
                            c.widget,
                            (match c.anchor {
                                Anchor::TopLeft => c.dimensions,
                                Anchor::Center => Rectangle {
                                    top_left: Point {
                                        x: int_to_i32_sat(
                                            rect.top_left.x + rect.size.width / 2
                                                - c.dimensions.size.width / 2,
                                        ),
                                        y: int_to_i32_sat(
                                            rect.top_left.y + rect.size.height / 2
                                                - c.dimensions.size.height / 2,
                                        ),
                                    },
                                    size: c.dimensions.size,
                                },
                            }),
                        ),
                        dimensions: c.dimensions,
                        exclusive: c.exclusive,
                        anchor: c.anchor,
                    },
                ));
            }
        }
        proof {
            let out = spec_widget_layout(WidgetModel::Root(oldm), rect);
            let pl = spec_root_place_prefix(oldm.children, rect, n as int);
            assert(oldm.children.len() == n);
            assert(final(self).model().children =~= pl);
            assert(WidgetModel::Root(final(self).model()) == out);
        }
    }
}


// ------------------------------------------------------------------
// Laws of the layout pass.

proof fn lemma_stretch_prefix(
    children: Seq<WModel>,
    rect: Rectangle,
    cross_align: LayoutAlignment,
    stretched: u32,
    i: int,
)
    requires
        0 <= i <= children.len(),
        0 <= rect.top_left.x,
        stretched as int * children.len() as int <= rect.size.width,
        rect.top_left.x + rect.size.width <= i32::MAX,
    ensures
        ({
            let pl = spec_linear_place_prefix(
                children,
                rect,
                LayoutDirection::Horizontal,
                LayoutAlignment::Stretch,
                cross_align,
                stretched,
                0i32,
                i,
            );
            &&& pl.0.len() == i
            &&& pl.1 == i * stretched
            &&& forall|j: int| 0 <= j < i ==> (#[trigger] pl.0[j]).computed_rect.size.width
                == stretched
            &&& forall|j: int| 0 <= j < i ==> (#[trigger] pl.0[j]).computed_rect.top_left.x
                == rect.top_left.x + j * stretched
        }),
    decreases i,
{
    if i > 0 {
        lemma_stretch_prefix(children, rect, cross_align, stretched, i - 1);
        let pl = spec_linear_place_prefix(
            children,
            rect,
            LayoutDirection::Horizontal,
            LayoutAlignment::Stretch,
            cross_align,
            stretched,
            0i32,
            i - 1,
        );
        assert((i - 1) * stretched >= 0 && i * stretched <= stretched as int * children.len() as int)
            by (nonlinear_arith)
            requires
                0 < i <= children.len(),
                stretched >= 0,
        ;
        assert(i * stretched == (i - 1) * stretched + stretched) by (nonlinear_arith);
        assert(stretched as int <= i * stretched);
        assert(to_i32_sat(stretched) == stretched as i32);
        assert(pl.1 == (i - 1) * stretched);
        assert(sat_add_i32(rect.top_left.x, pl.1) == rect.top_left.x + (i - 1) * stretched);
        let sized = spec_obj_size(children[i - 1], rect.size);
        let adjusted = spec_adjust_size(
            sized.1,
            LayoutDirection::Horizontal,
            LayoutAlignment::Stretch,
            cross_align,
            stretched,
            rect.size,
        );
        assert(adjusted.width == stretched);
        assert(sat_add_i32(pl.1, to_i32_sat(stretched)) == i * stretched);
        let pl1 = spec_linear_place_prefix(
            children,
            rect,
            LayoutDirection::Horizontal,
            LayoutAlignment::Stretch,
            cross_align,
            stretched,
            0i32,
            i,
        );
        assert(pl1.0 == pl.0.push(
            spec_obj_layout(
                sized.0,
                spec_child_rect_of(
                    rect,
                    LayoutDirection::Horizontal,
                    pl.1,
                    alignment_offset(
                        cross_align,
                        sat_sub_u32(
                            cross_axis(LayoutDirection::Horizontal, rect.size),
                            cross_axis(LayoutDirection::Horizontal, adjusted),
                        ),
                    ),
                    adjusted,
                ),
            ),
        ));
    }
}

/// Stretch distribution: a horizontal layout whose main alignment is
/// `Stretch` gives each of its children exactly one `n`-th of the
/// container width, packed side by side from the container's left
/// edge with no gap and no overlap.
pub proof fn lemma_linear_stretch_distribution(l: LinearModel, rect: Rectangle)
    requires
        l.direction == LayoutDirection::Horizontal,
        l.horizontal_alignment == LayoutAlignment::Stretch,
        l.children.len() > 0,
        0 <= rect.top_left.x,
        rect.top_left.x + rect.size.width <= i32::MAX,
    ensures
        ({
            let share = rect.size.width as int / l.children.len() as int;
            let out = spec_widget_layout(WidgetModel::Linear(l), rect);
            &&& out matches WidgetModel::Linear(l2) && l2.children.len() == l.children.len() && (
            forall|j: int| 0 <= j < l.children.len() ==> (#[trigger] l2.children[
                j]).computed_rect.size.width == share) && (forall|j: int| 0 <= j
                < l.children.len() ==> (#[trigger] l2.children[j]).computed_rect.top_left.x
                == rect.top_left.x + j * share)
        }),
{
    let n = l.children.len() as int;
    let share = rect.size.width as int / n;
    let st1 = spec_linear_total_prefix(l.children, rect.size, l.direction, n);
    lemma_linear_prefix_heights_total(l.children, rect.size, l.direction, n);
    assert(share * n <= rect.size.width && share >= 0) by (nonlinear_arith)
        requires
            n > 0,
            rect.size.width >= 0,
            share == rect.size.width as int / n,
    ;
    assert(alignment_offset(LayoutAlignment::Stretch, sat_sub_u32(main_axis(l.direction, rect.size), st1.1)) == 0i32);
    lemma_stretch_prefix(st1.0, rect, l.vertical_alignment, share as u32, n);
}

/// Margin size: a margin layout wrapping a fresh child that wants
/// `(w, h)` reports exactly `(w + left + right, h + top + bottom)`,
/// whatever the hint, as long as the result stays representable.
pub proof fn lemma_margin_size(m: MarginModel, leaf: Leaf, s: Size, hint: Size)
    requires
        m.margin.wf(),
        m.child.requested_size.is_zero(),
        m.child.widget == WidgetModel::Leaf(leaf),
        leaf.sizing == LeafSizing::Fixed(s),
        m.margin.left + m.margin.right <= u32::MAX,
        m.margin.top + m.margin.bottom <= u32::MAX,
        s.width + m.margin.left + m.margin.right <= u32::MAX,
        s.height + m.margin.top + m.margin.bottom <= u32::MAX,
    ensures
        spec_widget_size(WidgetModel::Margin(Box::new(m)), hint).1 == (Size {
            width: (s.width + m.margin.left + m.margin.right) as u32,
            height: (s.height + m.margin.top + m.margin.bottom) as u32,
        }),
{
    let horizontal = sat_add_u32(m.margin.left as u32, m.margin.right as u32);
    let vertical = sat_add_u32(m.margin.top as u32, m.margin.bottom as u32);
    let available = Size {
        width: sat_sub_u32(hint.width, horizontal),
        height: sat_sub_u32(hint.height, vertical),
    };
    assert(spec_widget_size(WidgetModel::Leaf(leaf), available).1 == s);
    assert(spec_obj_size(m.child, available).1 == s);
}

} // verus!
