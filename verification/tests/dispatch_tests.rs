use edgy::context::UiContext;
use edgy::dispatch::{Action, Command, Event, EventResult, SystemEvent};
use edgy::geometry::{Point, Rectangle, Size};
use edgy::widgets::{
    Anchor, IdAllocator, Leaf, LeafBehavior, LeafSizing, LinearLayoutBuilder, LayoutAlignment,
    LayoutDirection, RootLayout, SliderDimensions, Widget, WidgetObj,
};

fn button_leaf() -> Widget {
    Widget::Leaf(Leaf {
        sizing: LeafSizing::Fixed(Size { width: 10, height: 10 }),
        behavior: LeafBehavior::Button,
        payload: 0,
    })
}

#[test]
fn at_most_one_consumer() {
    let mut ids = IdAllocator::new();
    let mut builder = LinearLayoutBuilder::default().direction(LayoutDirection::Horizontal);
    for _ in 0..3 {
        builder.add_widget(button_leaf(), &mut ids);
    }
    let mut tree = builder.finish();
    let bounds = Rectangle::new(Point::new(0, 0), Size::new(30, 10));
    tree.size(bounds.size);
    tree.layout(bounds);
    let mut focused: usize = 0;
    let mut commands: Vec<Command> = Vec::new();
    let result = tree.draw(&SystemEvent::Active(Point::new(15, 5)), &mut focused, &mut commands);
    assert_eq!(result, EventResult::Stop);
    assert_eq!(commands, vec![Command { id: 2, action: Action::Activated }]);
    assert_eq!(focused, 2);
}

#[test]
fn event_translation() {
    let mut node = WidgetObj::new(button_leaf());
    node.size(Size::new(10, 10));
    node.layout(Rectangle::new(Point::new(5, 5), Size::new(10, 10)));
    assert_eq!(node.handle_event(&SystemEvent::Idle), Event::Idle);
    assert_eq!(
        node.handle_event(&SystemEvent::Active(Point::new(7, 9))),
        Event::Active(Some(Point::new(2, 4)))
    );
    assert_eq!(node.handle_event(&SystemEvent::Active(Point::new(20, 9))), Event::Idle);
    assert_eq!(node.handle_event(&SystemEvent::Move(Point::new(7, 9))), Event::Focus);
    assert_eq!(
        node.handle_event(&SystemEvent::Drag(Point::new(6, 6))),
        Event::Drag(Point::new(1, 1))
    );
}

#[test]
fn slider_press_sets_value() {
    let mut ids = IdAllocator::new();
    let slider = Widget::Leaf(Leaf {
        sizing: LeafSizing::HintWidth(10),
        behavior: LeafBehavior::Slider {
            value: 500,
            dimensions: SliderDimensions::default(),
        },
        payload: 0,
    });
    let mut node = WidgetObj::new(slider);
    node.assign_id(&mut ids);
    node.size(Size::new(100, 10));
    node.layout(Rectangle::new(Point::new(0, 0), Size::new(100, 10)));
    let mut focused: usize = 0;
    let mut commands: Vec<Command> = Vec::new();
    let result = node.draw(&SystemEvent::Active(Point::new(25, 5)), &mut focused, &mut commands);
    assert_eq!(result, EventResult::Stop);
    assert_eq!(commands, vec![Command { id: 1, action: Action::ValueChanged(250) }]);
    assert_eq!(focused, 1);
}

#[test]
fn slider_nudges_while_focused() {
    let mut ids = IdAllocator::new();
    let slider = Widget::Leaf(Leaf {
        sizing: LeafSizing::HintWidth(10),
        behavior: LeafBehavior::Slider {
            value: 990,
            dimensions: SliderDimensions::default(),
        },
        payload: 0,
    });
    let mut node = WidgetObj::new(slider);
    node.assign_id(&mut ids);
    let mut focused: usize = 1;
    let mut commands: Vec<Command> = Vec::new();
    node.draw(&SystemEvent::Increase(50), &mut focused, &mut commands);
    assert_eq!(commands, vec![Command { id: 1, action: Action::ValueChanged(1000) }]);
    commands.clear();
    node.draw(&SystemEvent::Decrease(995), &mut focused, &mut commands);
    assert_eq!(commands, vec![Command { id: 1, action: Action::ValueChanged(0) }]);
    commands.clear();
    let mut unfocused: usize = 9;
    node.draw(&SystemEvent::Increase(50), &mut unfocused, &mut commands);
    assert!(commands.is_empty());
}

#[test]
fn toggle_reacts_to_activation_only() {
    let mut ids = IdAllocator::new();
    let toggle = Widget::Leaf(Leaf {
        sizing: LeafSizing::Fixed(Size { width: 10, height: 10 }),
        behavior: LeafBehavior::Toggle { state: false },
        payload: 0,
    });
    let mut node = WidgetObj::new(toggle);
    node.assign_id(&mut ids);
    node.size(Size::new(10, 10));
    node.layout(Rectangle::new(Point::new(0, 0), Size::new(10, 10)));
    let mut focused: usize = 0;
    let mut commands: Vec<Command> = Vec::new();
    let result = node.draw(&SystemEvent::ActiveTo(1), &mut focused, &mut commands);
    assert_eq!(result, EventResult::Stop);
    assert_eq!(commands, vec![Command { id: 1, action: Action::Toggled(true) }]);
    commands.clear();
    let result = node.draw(&SystemEvent::Drag(Point::new(5, 5)), &mut focused, &mut commands);
    assert_eq!(result, EventResult::Pass);
    assert!(commands.is_empty());
}

#[test]
fn event_queue_keeps_latest_per_kind() {
    let mut ctx = UiContext::new(Vec::new());
    ctx.push_event(SystemEvent::Move(Point::new(1, 1)));
    ctx.push_event(SystemEvent::Move(Point::new(2, 2)));
    ctx.push_event(SystemEvent::Active(Point::new(3, 3)));
    assert_eq!(ctx.motion_event, SystemEvent::Move(Point::new(2, 2)));
    assert_eq!(ctx.interaction_event, SystemEvent::Active(Point::new(3, 3)));
}

#[test]
fn focus_cycling_wraps() {
    let mut ctx = UiContext::new(Vec::new());
    ctx.elements_count = 4;
    ctx.next_widget();
    assert_eq!(ctx.get_focused_widget_id(), 1);
    ctx.next_widget();
    ctx.next_widget();
    assert_eq!(ctx.get_focused_widget_id(), 3);
    ctx.next_widget();
    assert_eq!(ctx.get_focused_widget_id(), 1);
    ctx.previous_widget();
    assert_eq!(ctx.get_focused_widget_id(), 3);
    assert_eq!(ctx.motion_event, SystemEvent::FocusTo(3));
    ctx.activate_selected_widget();
    assert_eq!(ctx.interaction_event, SystemEvent::ActiveTo(3));
}

#[test]
fn update_runs_the_three_passes() {
    let mut ctx = UiContext::new(Vec::new());
    let mut builder = LinearLayoutBuilder::default()
        .direction(LayoutDirection::Horizontal)
        .alignment(LayoutAlignment::Stretch);
    builder.add_widget(button_leaf(), &mut ctx.ids);
    let root = builder.finish();
    ctx.push_event(SystemEvent::Active(Point::new(5, 5)));
    let bounds = Rectangle::new(Point::new(0, 0), Size::new(100, 20));
    let (tree, result, commands) = ctx.update(root, bounds);
    assert_eq!(result, EventResult::Stop);
    assert_eq!(commands, vec![Command { id: 1, action: Action::Activated }]);
    assert_eq!(ctx.get_focused_widget_id(), 1);
    assert_eq!(ctx.interaction_event, SystemEvent::Idle);
    assert_eq!(ctx.elements_count, 1);
    assert_eq!(tree.computed_rect, bounds);
}

#[test]
fn exclusive_child_captures_input() {
    let mut ids = IdAllocator::new();
    let mut main_button = WidgetObj::new(button_leaf());
    main_button.assign_id(&mut ids);
    let mut modal_button = WidgetObj::new(button_leaf());
    modal_button.assign_id(&mut ids);
    let mut root = RootLayout::new();
    root.add_widget_obj(
        main_button,
        Rectangle::new(Point::new(0, 0), Size::new(10, 10)),
        false,
        Anchor::TopLeft,
    );
    root.add_widget_obj(
        modal_button,
        Rectangle::new(Point::new(0, 0), Size::new(10, 10)),
        true,
        Anchor::TopLeft,
    );
    let mut tree = root.finish();
    let bounds = Rectangle::new(Point::new(0, 0), Size::new(100, 100));
    tree.size(bounds.size);
    tree.layout(bounds);
    let mut focused: usize = 0;
    let mut commands: Vec<Command> = Vec::new();
    let result = tree.draw(&SystemEvent::Active(Point::new(5, 5)), &mut focused, &mut commands);
    assert_eq!(result, EventResult::Stop);
    assert_eq!(commands, vec![Command { id: 2, action: Action::Activated }]);
}
