use edgy::geometry::{Point, Rectangle, Size};
use edgy::layout::grid_tracks;
use edgy::style::FontMetrics;
use edgy::text::{button_size, label_size, line_width};
use edgy::widgets::{
    FillStrategy, GridLayoutBuilder, Leaf, LeafBehavior, LeafSizing, LinearLayoutBuilder,
    LayoutAlignment, LayoutDirection, Margin, MarginLayoutBuilder, RootLayout, Anchor, Widget,
    WidgetObj,
};

fn fixed_leaf(width: u32, height: u32) -> Widget {
    Widget::Leaf(Leaf {
        sizing: LeafSizing::Fixed(Size { width, height }),
        behavior: LeafBehavior::Static,
        payload: 0,
    })
}

fn filler(strategy: FillStrategy) -> Widget {
    Widget::Leaf(Leaf {
        sizing: LeafSizing::Fill(strategy),
        behavior: LeafBehavior::Static,
        payload: 0,
    })
}

#[test]
fn stretch_distribution() {
    let mut builder = LinearLayoutBuilder::default()
        .direction(LayoutDirection::Horizontal)
        .alignment(LayoutAlignment::Stretch);
    for _ in 0..3 {
        builder.add_widget_obj(WidgetObj::new(filler(FillStrategy::Both)));
    }
    let mut tree = builder.finish();
    let bounds = Rectangle::new(Point::new(0, 0), Size::new(300, 50));
    tree.size(bounds.size);
    tree.layout(bounds);
    match &tree.widget {
        Widget::Linear(l) => {
            let mut total = 0;
            for (i, child) in l.children.iter().enumerate() {
                assert_eq!(child.computed_rect.size.width, 100);
                assert_eq!(child.computed_rect.top_left.x, 100 * i as i32);
                total += child.computed_rect.size.width;
            }
            assert_eq!(total, 300);
        }
        _ => panic!("expected a linear layout"),
    }
}

#[test]
fn grid_rounding() {
    let tracks = grid_tracks(&vec![1, 1, 1], 100);
    assert_eq!(tracks, vec![33, 33, 34]);
    let sum: u32 = tracks.iter().sum();
    assert_eq!(sum, 100);
    let uneven = grid_tracks(&vec![3, 7], 17);
    let sum: u32 = uneven.iter().sum();
    assert_eq!(sum, 17);
}

#[test]
fn grid_places_children_in_tracks() {
    let mut builder = GridLayoutBuilder::default()
        .add_column(33)
        .add_column(33)
        .add_column(33)
        .add_row(100);
    for _ in 0..3 {
        builder.add_widget_obj(WidgetObj::new(filler(FillStrategy::Both)));
    }
    let mut tree = builder.finish();
    let bounds = Rectangle::new(Point::new(0, 0), Size::new(100, 10));
    tree.size(bounds.size);
    tree.layout(bounds);
    match &tree.widget {
        Widget::Grid(g) => {
            let widths: Vec<u32> = g.children.iter().map(|c| c.computed_rect.size.width).collect();
            assert_eq!(widths, vec![33, 33, 34]);
            assert_eq!(g.children[1].computed_rect.top_left.x, 33);
            assert_eq!(g.children[2].computed_rect.top_left.x, 66);
            let sum: u32 = widths.iter().sum();
            assert_eq!(sum, bounds.size.width);
        }
        _ => panic!("expected a grid layout"),
    }
}

#[test]
fn margin_adds_back_after_shrinking() {
    let mut builder = MarginLayoutBuilder::new(Margin::new(2, 3, 4, 5));
    builder.add_widget_obj(WidgetObj::new(fixed_leaf(10, 20)));
    let mut tree = builder.finish();
    let reported = tree.size(Size::new(100, 100));
    assert_eq!(reported, Size::new(10 + 5 + 3, 20 + 2 + 4));
    let bounds = Rectangle::new(Point::new(7, 9), Size::new(100, 100));
    tree.layout(bounds);
    match &tree.widget {
        Widget::Margin(m) => {
            assert_eq!(m.child.computed_rect.top_left, Point::new(7 + 5, 9 + 2));
            assert_eq!(m.child.computed_rect.size, Size::new(10, 20));
        }
        _ => panic!("expected a margin layout"),
    }
}

#[test]
fn size_is_memoized_across_hints() {
    let mut node = WidgetObj::new(fixed_leaf(10, 20));
    let first = node.size(Size::new(100, 100));
    let second = node.size(Size::new(5, 5));
    assert_eq!(first, Size::new(10, 20));
    assert_eq!(second, first);
}

#[test]
fn linear_size_shrinks_the_budget() {
    let mut builder = LinearLayoutBuilder::default().direction(LayoutDirection::Horizontal);
    builder.add_widget_obj(WidgetObj::new(fixed_leaf(60, 10)));
    builder.add_widget_obj(WidgetObj::new(filler(FillStrategy::Both)));
    let mut tree = builder.finish();
    let reported = tree.size(Size::new(100, 20));
    assert_eq!(reported, Size::new(100, 20));
    match &tree.widget {
        Widget::Linear(l) => {
            assert_eq!(l.children[0].requested_size, Size::new(60, 10));
            assert_eq!(l.children[1].requested_size, Size::new(40, 20));
        }
        _ => panic!("expected a linear layout"),
    }
}

#[test]
fn root_centers_anchored_children() {
    let mut root = RootLayout::new();
    root.add_widget_obj(
        WidgetObj::new(fixed_leaf(20, 10)),
        Rectangle::new(Point::new(0, 0), Size::new(20, 10)),
        true,
        Anchor::Center,
    );
    let mut tree = root.finish();
    let bounds = Rectangle::new(Point::new(0, 0), Size::new(100, 100));
    tree.size(bounds.size);
    tree.layout(bounds);
    match &tree.widget {
        Widget::Root(r) => {
            assert_eq!(r.children[0].widget.computed_rect.top_left, Point::new(40, 45));
        }
        _ => panic!("expected the root layout"),
    }
}

#[test]
fn filler_occupies_requested_axes() {
    let hint = Size::new(80, 60);
    let mut v = WidgetObj::new(filler(FillStrategy::Vertical));
    assert_eq!(v.size(hint), Size::new(0, 60));
    let mut h = WidgetObj::new(filler(FillStrategy::Horizontal));
    assert_eq!(h.size(hint), Size::new(80, 0));
    let mut b = WidgetObj::new(filler(FillStrategy::Both));
    assert_eq!(b.size(hint), hint);
}

#[test]
fn bound_sizes_clamp() {
    let mut builder = LinearLayoutBuilder::default()
        .min_size(Size::new(10, 10))
        .max_size(Size::new(50, 50));
    builder.add_widget_obj(WidgetObj::new(filler(FillStrategy::Both)));
    let tree = builder.finish();
    assert_eq!(tree.calculate_bound_sizes(Size::new(5, 70)), Size::new(10, 50));
    assert_eq!(tree.calculate_bound_sizes(Size::new(30, 30)), Size::new(30, 30));
}

#[test]
fn text_measurement() {
    let metrics = FontMetrics { character_width: 6, character_height: 10, character_spacing: 1 };
    assert_eq!(line_width(3, metrics), 3 * 6 + 2);
    assert_eq!(line_width(0, metrics), 0);
    assert_eq!(button_size("abc", metrics, 2), Size::new(20 + 4, 10 + 4));
    let lines = vec![String::from("ab"), String::from("c")];
    assert_eq!(label_size(&lines, metrics, 2), Size::new(13, 12));
    assert_eq!(label_size(&vec![String::from("abc")], metrics, 2), Size::new(20, 10));
    assert_eq!(label_size(&Vec::new(), metrics, 2), Size::new(0, 0));
}

#[test]
fn grid_gap_shrinks_available_space() {
    let tracks = grid_tracks(&vec![1, 1], 104 - 4);
    assert_eq!(tracks, vec![50, 50]);
    let mut builder = GridLayoutBuilder::default()
        .add_column(50)
        .add_column(50)
        .add_row(100)
        .gap(4);
    builder.add_widget_obj(WidgetObj::new(filler(FillStrategy::Both)));
    builder.add_widget_obj(WidgetObj::new(filler(FillStrategy::Both)));
    let mut tree = builder.finish();
    let bounds = Rectangle::new(Point::new(0, 0), Size::new(104, 10));
    tree.size(bounds.size);
    tree.layout(bounds);
    match &tree.widget {
        Widget::Grid(g) => {
            assert_eq!(g.children[0].computed_rect.size.width, 50);
            assert_eq!(g.children[0].computed_rect.top_left.x, 0);
            assert_eq!(g.children[1].computed_rect.size.width, 50);
            assert_eq!(g.children[1].computed_rect.top_left.x, 54);
        }
        _ => panic!("expected a grid layout"),
    }
}

#[test]
fn hint_width_leaf_takes_fixed_height() {
    let slider_like = Widget::Leaf(Leaf {
        sizing: LeafSizing::HintWidth(10),
        behavior: LeafBehavior::Static,
        payload: 0,
    });
    let mut node = WidgetObj::new(slider_like);
    assert_eq!(node.size(Size::new(120, 80)), Size::new(120, 10));
}

#[test]
fn rectangle_center_and_containment() {
    let r = Rectangle::new(Point::new(7, 9), Size::new(100, 100));
    assert_eq!(r.center(), Point::new(57, 59));
    assert!(r.contains(Point::new(7, 9)));
    assert!(r.contains(Point::new(106, 108)));
    assert!(!r.contains(Point::new(107, 9)));
    assert!(!r.contains(Point::new(6, 9)));
}

#[test]
fn layout_records_the_assigned_rectangle() {
    let mut node = WidgetObj::new(fixed_leaf(4, 4));
    let target = Rectangle::new(Point::new(3, 5), Size::new(4, 4));
    node.layout(target);
    assert_eq!(node.rect(), target);
}
