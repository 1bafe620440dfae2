//! The draw pass of the three-pass protocol: translating the frame's
//! system event into per-widget events by hit-testing and id matching,
//! and routing it through the tree so that once a widget consumes it,
//! every later sibling sees an idle event.
//!
//! Widgets do not call back into the host; what a widget did is
//! reported as a `Command` the host interprets after the pass.
use vstd::prelude::*;

use crate::geometry::{Point, Rectangle};
use crate::widgets::{
    Leaf, LeafBehavior, RootChildModel, RootLayout, WModel, Widget, WidgetModel, WidgetObj,
};

verus! {

/// Whether a widget consumed the frame's interaction.
#[derive(Clone, Copy, Debug, PartialEq, Eq, Structural)]
pub enum EventResult {
    /// The widget consumed the interaction; siblings and ancestors
    /// must not react to it this frame.
    Stop,
    /// The widget did not react; the event keeps looking for a
    /// consumer.
    Pass,
}

/// A raw event the host injects, once per frame.  Nudge steps and
/// slider values are fractions in thousandths.
#[derive(Clone, Copy, Debug, PartialEq, Eq, Structural)]
pub enum SystemEvent {
    Idle,
    /// Focus the widget with this interaction id.
    FocusTo(usize),
    /// Activate the widget with this interaction id.
    ActiveTo(usize),
    /// A press at a display position.
    Active(Point),
    /// Movement to a display position.
    Move(Point),
    /// A drag at a display position.
    Drag(Point),
    /// Nudge the focused widget's value up by a step.
    Increase(u32),
    /// Nudge the focused widget's value down by a step.
    Decrease(u32),
}

impl SystemEvent {
    /// Whether the event only tracks motion or focus, rather than an
    /// interaction.
    pub open spec fn spec_is_motion_event(self) -> bool {
        self is FocusTo || self is Move
    }

    /// Whether the event only tracks motion or focus.
    pub fn is_motion_event(&self) -> (r: bool)
        ensures
            r == self.spec_is_motion_event(),
    {
        match self {
            SystemEvent::FocusTo(_) => true,
            SystemEvent::Move(_) => true,
            _ => false,
        }
    }
}

/// The event one widget sees after translation.
#[derive(Clone, Copy, Debug, PartialEq, Eq, Structural)]
pub enum Event {
    Idle,
    /// Hover or focus-cycling reached this widget.
    Focus,
    /// The widget was activated, at a local position when the
    /// activation came from a press.
    Active(Option<Point>),
    /// A drag at a local position.
    Drag(Point),
}

/// What a widget did during the draw pass, for the host to interpret
/// after the frame.
#[derive(Clone, Copy, Debug, PartialEq, Eq, Structural)]
pub enum Action {
    /// A button was pressed.
    Activated,
    /// A toggle button asks to switch to this state.
    Toggled(bool),
    /// A slider moved to this value, in thousandths.
    ValueChanged(u32),
}

/// A reaction of the widget with the given interaction id.
#[derive(Clone, Copy, Debug, PartialEq, Eq, Structural)]
pub struct Command {
    pub id: usize,
    pub action: Action,
}

/// A coordinate difference, clamping at the representable range.
pub open spec fn sub_i32_sat(a: i32, b: i32) -> i32 {
    if a - b > i32::MAX {
        i32::MAX
    } else if a - b < i32::MIN {
        i32::MIN
    } else {
        (a - b) as i32
    }
}

/// A coordinate difference.
pub fn sub_sat_i32(a: i32, b: i32) -> (r: i32)
    ensures
        r == sub_i32_sat(a, b),
{
    let wide: i64 = a as i64 - b as i64;
    if wide > i32::MAX as i64 {
        i32::MAX
    } else if wide < i32::MIN as i64 {
        i32::MIN
    } else {
        wide as i32
    }
}

/// A display position in a widget's local coordinates.
pub open spec fn spec_local_point(rect: Rectangle, p: Point) -> Point {
    Point { x: sub_i32_sat(p.x, rect.top_left.x), y: sub_i32_sat(p.y, rect.top_left.y) }
}

/// How a system event reaches one widget: an explicit id must match
/// the widget's id; a position must fall inside the widget's last
/// computed rectangle, and is then translated to local coordinates.
/// Anything else is idle.
pub open spec fn spec_translate(rect: Rectangle, id: usize, event: SystemEvent) -> Event {
    match event {
        SystemEvent::Idle => Event::Idle,
        SystemEvent::FocusTo(target) => if target == id {
            Event::Focus
        } else {
            Event::Idle
        },
        SystemEvent::ActiveTo(target) => if target == id {
            Event::Active(None)
        } else {
            Event::Idle
        },
        SystemEvent::Active(p) => if rect.spec_contains(p) {
            Event::Active(Some(spec_local_point(rect, p)))
        } else {
            Event::Idle
        },
        SystemEvent::Move(p) => if rect.spec_contains(p) {
            Event::Focus
        } else {
            Event::Idle
        },
        SystemEvent::Drag(p) => if rect.spec_contains(p) {
            Event::Drag(spec_local_point(rect, p))
        } else {
            Event::Idle
        },
        SystemEvent::Increase(_) => Event::Idle,
        SystemEvent::Decrease(_) => Event::Idle,
    }
}

/// The slider value a local press position means: the position's
/// share of the width, in thousandths, clamped to the value range.
pub open spec fn spec_slider_value(rect: Rectangle, p: Point) -> u32 {
    if rect.size.width == 0 {
        0u32
    } else {
        let relative = (p.x - rect.top_left.x) * 1000 / rect.size.width as int;
        if relative < 0 {
            0u32
        } else if relative > 1000 {
            1000u32
        } else {
            relative as u32
        }
    }
}

/// A value nudged up by a step, clamped to the value range.
pub open spec fn spec_nudge_up(value: u32, step: u32) -> u32 {
    if value + step > 1000 {
        1000u32
    } else {
        (value + step) as u32
    }
}

/// A value nudged down by a step, clamped to the value range.
pub open spec fn spec_nudge_down(value: u32, step: u32) -> u32 {
    if value < step {
        0u32
    } else {
        (value - step) as u32
    }
}

/// What one step of the draw pass yields: whether the event was
/// consumed, the focused id afterwards, and the widgets' reactions in
/// tree order.
pub struct DrawStep {
    pub result: EventResult,
    pub focused: usize,
    pub commands: Seq<Command>,
}

/// How a leaf reacts to its translated event.  Buttons consume focus,
/// activation and drag; toggles consume focus and activation; sliders
/// consume presses and drags by moving their value, and nudge events
/// while focused.  Activation moves the focus to the widget.
pub open spec fn spec_leaf_draw(
    leaf: Leaf,
    rect: Rectangle,
    id: usize,
    local: Event,
    event: SystemEvent,
    focused: usize,
) -> DrawStep {
    match leaf.behavior {
        LeafBehavior::Static => DrawStep { result: EventResult::Pass, focused, commands: Seq::empty() },
        LeafBehavior::Button => match local {
            Event::Focus => DrawStep { result: EventResult::Stop, focused, commands: Seq::empty() },
            Event::Active(_) => DrawStep {
                result: EventResult::Stop,
                focused: id,
                commands: seq![Command { id, action: Action::Activated }],
            },
            Event::Drag(_) => DrawStep {
                result: EventResult::Stop,
                focused: id,
                commands: seq![Command { id, action: Action::Activated }],
            },
            Event::Idle => DrawStep { result: EventResult::Pass, focused, commands: Seq::empty() },
        },
        LeafBehavior::Toggle { state } => match local {
            Event::Focus => DrawStep { result: EventResult::Stop, focused, commands: Seq::empty() },
            Event::Active(_) => DrawStep {
                result: EventResult::Stop,
                focused: id,
                commands: seq![Command { id, action: Action::Toggled(!state) }],
            },
            _ => DrawStep { result: EventResult::Pass, focused, commands: Seq::empty() },
        },
        LeafBehavior::Slider { value, dimensions } => {
            let nudges: Seq<Command> = if focused == id {
                match event {
                    SystemEvent::Increase(step) => seq![
                        Command { id, action: Action::ValueChanged(spec_nudge_up(value, step)) },
                    ],
                    SystemEvent::Decrease(step) => seq![
                        Command { id, action: Action::ValueChanged(spec_nudge_down(value, step)) },
                    ],
                    _ => Seq::empty(),
                }
            } else {
                Seq::empty()
            };
            match local {
                Event::Active(Some(p)) => DrawStep {
                    result: EventResult::Stop,
                    focused: id,
                    commands: nudges + seq![
                        Command { id, action: Action::ValueChanged(spec_slider_value(rect, p)) },
                    ],
                },
                Event::Drag(p) => DrawStep {
                    result: EventResult::Stop,
                    focused: id,
                    commands: nudges + seq![
                        Command { id, action: Action::ValueChanged(spec_slider_value(rect, p)) },
                    ],
                },
                _ => DrawStep { result: EventResult::Pass, focused, commands: nudges },
            }
        },
    }
}

/// The draw pass on one node.
pub open spec fn spec_obj_draw(w: WModel, event: SystemEvent, focused: usize) -> DrawStep
    decreases w, 1int,
{
    let local = spec_translate(w.computed_rect, w.id, event);
    match w.widget {
        WidgetModel::Leaf(l) => spec_leaf_draw(l, w.computed_rect, w.id, local, event, focused),
        WidgetModel::Linear(l) => spec_children_draw(
            l.children,
            event,
            focused,
            l.children.len() as int,
        ),
        WidgetModel::Grid(g) => spec_children_draw(
            g.children,
            event,
            focused,
            g.children.len() as int,
        ),
        WidgetModel::Margin(m) => spec_obj_draw(m.child, event, focused),
        WidgetModel::Root(r) => spec_root_draw(r.children, event, focused, r.children.len() as int),
    }
}

/// The draw pass over the first `i` children of a container: children
/// are visited in order; once one consumed the event, every later one
/// is offered an idle event, so at most one widget per frame reacts.
pub open spec fn spec_children_draw(
    children: Seq<WModel>,
    event: SystemEvent,
    focused: usize,
    i: int,
) -> DrawStep
    decreases children, 0int, i,
{
    if i <= 0 || i > children.len() {
        DrawStep { result: EventResult::Pass, focused, commands: Seq::empty() }
    } else {
        let acc = spec_children_draw(children, event, focused, i - 1);
        let offered = if acc.result is Stop {
            SystemEvent::Idle
        } else {
            event
        };
        let out = spec_obj_draw(children[i - 1], offered, acc.focused);
        DrawStep {
            result: (if acc.result is Stop || out.result is Stop {
                EventResult::Stop
            } else {
                EventResult::Pass
            }),
            focused: out.focused,
            commands: acc.commands + out.commands,
        }
    }
}

/// The draw pass over the first `i` root children: only an exclusive
/// child is offered the real event, and only while nothing consumed
/// it yet.
pub open spec fn spec_root_draw(
    children: Seq<RootChildModel>,
    event: SystemEvent,
    focused: usize,
    i: int,
) -> DrawStep
    decreases children, 0int, i,
{
    if i <= 0 || i > children.len() {
        DrawStep { result: EventResult::Pass, focused, commands: Seq::empty() }
    } else {
        let acc = spec_root_draw(children, event, focused, i - 1);
        let offered = if acc.result is Stop || !children[i - 1].exclusive {
            SystemEvent::Idle
        } else {
            event
        };
        let out = spec_obj_draw(children[i - 1].widget, offered, acc.focused);
        DrawStep {
            result: (if acc.result is Stop || out.result is Stop {
                EventResult::Stop
            } else {
                EventResult::Pass
            }),
            focused: out.focused,
            commands: acc.commands + out.commands,
        }
    }
}


/// The models of a run of tree nodes.
pub open spec fn obj_models(s: Seq<WidgetObj>) -> Seq<WModel> {
    Seq::new(s.len(), |i: int| s[i].model())
}

/// The slider value a local press position means.
pub fn slider_value_at(rect: Rectangle, p: Point) -> (r: u32)
    ensures
        r == spec_slider_value(rect, p),
{
    if rect.size.width == 0 {
        return 0;
    }
    let num: i64 = (p.x as i64 - rect.top_left.x as i64) * 1000;
    proof {
        assert(num as int == (p.x - rect.top_left.x) * 1000);
    }
    if num < 0 {
        proof {
            let w = rect.size.width as int;
            assert((p.x - rect.top_left.x) * 1000 / w < 0) by (nonlinear_arith)
                requires
                    w > 0,
                    (p.x - rect.top_left.x) * 1000 < 0,
            ;
        }
        0
    } else {
        let q: i64 = num / rect.size.width as i64;
        proof {
            let w = rect.size.width as int;
            assert(q as int == num as int / w);
            assert(num as int / w >= 0) by (nonlinear_arith)
                requires
                    w > 0,
                    num as int >= 0,
            ;
        }
        if q > 1000 {
            1000
        } else {
            q as u32
        }
    }
}

impl WidgetObj {
    /// Translates the frame's system event into this widget's event,
    /// by id matching and hit-testing against the widget's last
    /// computed rectangle.
    pub fn handle_event(&self, event: &SystemEvent) -> (r: Event)
        ensures
            r == spec_translate(self.computed_rect, self.id, *event),
    {
        match *event {
            SystemEvent::Idle => Event::Idle,
            SystemEvent::FocusTo(target) => if target == self.id {
                Event::Focus
            } else {
                Event::Idle
            },
            SystemEvent::ActiveTo(target) => if target == self.id {
                Event::Active(None)
            } else {
                Event::Idle
            },
            SystemEvent::Active(p) => if self.computed_rect.contains(p) {
                Event::Active(
                    Some(
                        Point {
                            x: sub_sat_i32(p.x, self.computed_rect.top_left.x),
                            y: sub_sat_i32(p.y, self.computed_rect.top_left.y),
                        },
                    ),
                )
            } else {
                Event::Idle
            },
            SystemEvent::Move(p) => if self.computed_rect.contains(p) {
                Event::Focus
            } else {
                Event::Idle
            },
            SystemEvent::Drag(p) => if self.computed_rect.contains(p) {
                Event::Drag(
                    Point {
                        x: sub_sat_i32(p.x, self.computed_rect.top_left.x),
                        y: sub_sat_i32(p.y, self.computed_rect.top_left.y),
                    },
                )
            } else {
                Event::Idle
            },
            SystemEvent::Increase(_) => Event::Idle,
            SystemEvent::Decrease(_) => Event::Idle,
        }
    }

    /// The draw pass: routes the frame's event through the tree.  The
    /// widgets' reactions are appended to `commands`; `focused` is the
    /// focused interaction id, which activation moves.
    pub fn draw(&self, event: &SystemEvent, focused: &mut usize, commands: &mut Vec<Command>) -> (r:
        EventResult)
        ensures
            ({
                let out = spec_obj_draw(self.model(), *event, *old(focused));
                r == out.result && *final(focused) == out.focused && final(commands)@ == old(
                    commands,
                )@ + out.commands
            }),
        decreases *self, 1int,
    {
        let ghost out = spec_obj_draw(self.model(), *event, *old(focused));
        let local = self.handle_event(event);
        let r = match &self.widget {
            Widget::Leaf(l) => {
                let mut result = EventResult::Pass;
                let ghost pre = commands@;
                match l.behavior {
                    LeafBehavior::Static => {},
                    LeafBehavior::Button => {
                        match local {
                            Event::Focus => {
                                result = EventResult::Stop;
                            },
                            Event::Active(_) => {
                                result = EventResult::Stop;
                                *focused = self.id;
                                commands.push(Command { id: self.id, action: Action::Activated });
                            },
                            Event::Drag(_) => {
                                result = EventResult::Stop;
                                *focused = self.id;
                                commands.push(Command { id: self.id, action: Action::Activated });
                            },
                            Event::Idle => {},
                        }
                    },
                    LeafBehavior::Toggle { state } => {
                        match local {
                            Event::Focus => {
                                result = EventResult::Stop;
                            },
                            Event::Active(_) => {
                                result = EventResult::Stop;
                                *focused = self.id;
                                commands.push(
                                    Command { id: self.id, action: Action::Toggled(!state) },
                                );
                            },
                            _ => {},
                        }
                    },
                    LeafBehavior::Slider { value, dimensions } => {
                        if *focused == self.id {
                            match *event {
                                SystemEvent::Increase(step) => {
                                    let nudged = if value > 1000 || step > 1000 - value {
                                        1000
                                    } else {
                                        value + step
                                    };
                                    commands.push(
                                        Command {
                                            id: self.id,
                                            action: Action::ValueChanged(nudged),
                                        },
                                    );
                                },
                                SystemEvent::Decrease(step) => {
                                    let nudged = if value < step {
                                        0
                                    } else {
                                        value - step
                                    };
                                    commands.push(
                                        Command {
                                            id: self.id,
                                            action: Action::ValueChanged(nudged),
                                        },
                                    );
                                },
                                _ => {},
                            }
                        }
                        match local {
                            Event::Active(Some(p)) => {
                                result = EventResult::Stop;
                                *focused = self.id;
                                commands.push(
                                    Command {
                                        id: self.id,
                                        action: Action::ValueChanged(
                                            slider_value_at(self.computed_rect, p),
                                        ),
                                    },
                                );
                            },
                            Event::Drag(p) => {
                                result = EventResult::Stop;
                                *focused = self.id;
                                commands.push(
                                    Command {
                                        id: self.id,
                                        action: Action::ValueChanged(
                                            slider_value_at(self.computed_rect, p),
                                        ),
                                    },
                                );
                            },
                            _ => {},
                        }
                    },
                }
                proof {
                    assert(commands@ =~= pre + out.commands);
                }
                result
            },
            Widget::Linear(l) => {
                let r = draw_children(&l.children, event, focused, commands);
                proof {
                    assert(obj_models(l.children@) =~= l.model().children);
                }
                r
            },
            Widget::Grid(g) => {
                let r = draw_children(&g.children, event, focused, commands);
                proof {
                    assert(obj_models(g.children@) =~= g.model().children);
                }
                r
            },
            Widget::Margin(m) => m.child.draw(event, focused, commands),
            Widget::Root(root) => root.draw(event, focused, commands),
        };
        r
    }
}

/// The draw pass over a container's children: children are visited in
/// order; once one consumed the event, every later one is offered an
/// idle event.
fn draw_children(
    children: &Vec<WidgetObj>,
    event: &SystemEvent,
    focused: &mut usize,
    commands: &mut Vec<Command>,
) -> (r: EventResult)
    ensures
        ({
            let out = spec_children_draw(
                obj_models(children@),
                *event,
                *old(focused),
                children@.len() as int,
            );
            r == out.result && *final(focused) == out.focused && final(commands)@ == old(
                commands,
            )@ + out.commands
        }),
    decreases *children, 0int,
{
    let ghost models = obj_models(children@);
    let ghost focused0 = *old(focused);
    let ghost commands0 = commands@;
    let mut result = EventResult::Pass;
    let n = children.len();
    for i in 0..n
        invariant
            n == children@.len(),
            models == obj_models(children@),
            ({
                let acc = spec_children_draw(models, *event, focused0, i as int);
                result == acc.result && *focused == acc.focused && commands@ == commands0
                    + acc.commands
            }),
    {
        let offered = if result == EventResult::Stop {
            SystemEvent::Idle
        } else {
            *event
        };
        proof {
            assert(models[i as int] == children@[i as int].model());
        }
        let child_result = children[i].draw(&offered, focused, commands);
        if result == EventResult::Pass && child_result == EventResult::Stop {
            result = EventResult::Stop;
        }
        proof {
            let acc = spec_children_draw(models, *event, focused0, i as int);
            let acc1 = spec_children_draw(models, *event, focused0, i + 1);
            assert(commands@ =~= commands0 + acc1.commands);
        }
    }
    result
}

impl RootLayout {
    /// The draw pass of the root: only an exclusive child is offered
    /// the real event, and only while nothing consumed it yet; the
    /// others see an idle event.
    pub fn draw(&self, event: &SystemEvent, focused: &mut usize, commands: &mut Vec<Command>) -> (r:
        EventResult)
        ensures
            ({
                let out = spec_root_draw(
                    self.model().children,
                    *event,
                    *old(focused),
                    self.children@.len() as int,
                );
                r == out.result && *final(focused) == out.focused && final(commands)@ == old(
                    commands,
                )@ + out.commands
            }),
        decreases *self, 0int,
    {
        let ghost models = self.model().children;
        let ghost focused0 = *old(focused);
        let ghost commands0 = commands@;
        let mut result = EventResult::Pass;
        let n = self.children.len();
        for i in 0..n
            invariant
                n == self.children@.len(),
                models == self.model().children,
                ({
                    let acc = spec_root_draw(models, *event, focused0, i as int);
                    result == acc.result && *focused == acc.focused && commands@ == commands0
                        + acc.commands
                }),
        {
            let offered = if result == EventResult::Stop || !self.children[i].exclusive {
                SystemEvent::Idle
            } else {
                *event
            };
            proof {
                assert(models[i as int] == self.children@[i as int].model());
            }
            let child_result = self.children[i].widget.draw(&offered, focused, commands);
            if result == EventResult::Pass && child_result == EventResult::Stop {
                result = EventResult::Stop;
            }
            proof {
                let acc1 = spec_root_draw(models, *event, focused0, i + 1);
                assert(commands@ =~= commands0 + acc1.commands);
            }
        }
        result
    }
}


/// Whether a node is an interactive button leaf.
pub open spec fn is_button_leaf(w: WModel) -> bool {
    w.widget matches WidgetModel::Leaf(l) && l.behavior is Button
}

proof fn lemma_one_consumer_prefix(children: Seq<WModel>, p: Point, focused: usize, k: int, i: int)
    requires
        0 <= k < children.len(),
        forall|j: int| 0 <= j < children.len() ==> is_button_leaf(#[trigger] children[j]),
        forall|j: int| 0 <= j < children.len() && j != k ==> !(#[trigger] children[j]).computed_rect.spec_contains(p),
        children[k].computed_rect.spec_contains(p),
        0 <= i <= children.len(),
    ensures
        ({
            let acc = spec_children_draw(children, SystemEvent::Active(p), focused, i);
            &&& (acc.result is Stop <==> i > k)
            &&& acc.commands =~= (if i > k {
                seq![Command { id: children[k].id, action: Action::Activated }]
            } else {
                Seq::<Command>::empty()
            })
            &&& acc.focused == (if i > k {
                children[k].id
            } else {
                focused
            })
        }),
    decreases i,
{
    if i > 0 {
        lemma_one_consumer_prefix(children, p, focused, k, i - 1);
        let acc = spec_children_draw(children, SystemEvent::Active(p), focused, i - 1);
        let offered = if acc.result is Stop {
            SystemEvent::Idle
        } else {
            SystemEvent::Active(p)
        };
        let out = spec_obj_draw(children[i - 1], offered, acc.focused);
        if i - 1 > k {
            assert(offered == SystemEvent::Idle);
            assert(out.result is Pass && out.commands =~= Seq::<Command>::empty());
        } else if i - 1 == k {
            assert(offered == SystemEvent::Active(p));
        } else {
            assert(offered == SystemEvent::Active(p));
            assert(!children[i - 1].computed_rect.spec_contains(p));
        }
        assert(spec_children_draw(children, SystemEvent::Active(p), focused, i).commands
            =~= acc.commands + out.commands);
    }
}

/// At most one consumer: among sibling interactive button widgets,
/// when the frame's event is a press whose position falls inside
/// exactly one sibling's last computed rectangle, exactly that sibling
/// consumes the event and reacts, the focus moves to it, and every
/// sibling after it is offered a synthetic idle event (the pass
/// reports the event consumed from the consumer on).
pub proof fn lemma_at_most_one_consumer(children: Seq<WModel>, p: Point, focused: usize, k: int)
    requires
        0 <= k < children.len(),
        forall|j: int| 0 <= j < children.len() ==> is_button_leaf(#[trigger] children[j]),
        forall|j: int| 0 <= j < children.len() && j != k ==> !(#[trigger] children[j]).computed_rect.spec_contains(p),
        children[k].computed_rect.spec_contains(p),
    ensures
        ({
            let out = spec_children_draw(
                children,
                SystemEvent::Active(p),
                focused,
                children.len() as int,
            );
            &&& out.result is Stop
            &&& out.commands =~= seq![Command { id: children[k].id, action: Action::Activated }]
            &&& out.focused == children[k].id
        }),
        forall|i: int| 0 <= i <= children.len() ==> (spec_children_draw(
            children,
            SystemEvent::Active(p),
            focused,
            i,
        ).result is Stop <==> i > k),
{
    lemma_one_consumer_prefix(children, p, focused, k, children.len() as int);
    assert forall|i: int| 0 <= i <= children.len() implies (spec_children_draw(
        children,
        SystemEvent::Active(p),
        focused,
        i,
    ).result is Stop <==> i > k) by {
        lemma_one_consumer_prefix(children, p, focused, k, i);
    }
}

} // verus!
