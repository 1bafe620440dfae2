//! The per-frame UI state: the active style sheet, the two-slot event
//! queue, the focus bookkeeping, and the frame entry point that runs
//! the three passes over a widget tree.
use vstd::prelude::*;

use crate::cascade::{kinds_model, resolve_style, spec_resolve};
use crate::dispatch::{Command, EventResult, SystemEvent, spec_obj_draw};
use crate::geometry::{Rectangle, Size};
use crate::layout::{spec_obj_layout, spec_obj_size};
use crate::style::{Modifier, Part, SelectorKind, Style, StyleSheet, sheet_model};
use crate::widgets::{
    Anchor, IdAllocator, RootChildModel, RootLayout, RootModel, WModel, Widget, WidgetModel,
    WidgetObj, wf_node,
};

verus! {

/// What the debug overlay shows.
pub struct DebugOptions {
    pub enabled: bool,
    pub widget_rects: bool,
    pub widget_rect_active: bool,
    pub widget_sizes: bool,
    pub widget_ids: bool,
}

impl Default for DebugOptions {
    /// The overlay starts disabled, with rectangles shown once it is
    /// enabled.
    fn default() -> (r: DebugOptions)
        ensures
            r == (DebugOptions {
                enabled: false,
                widget_rects: true,
                widget_rect_active: true,
                widget_sizes: false,
                widget_ids: false,
            }),
    {
        DebugOptions {
            enabled: false,
            widget_rects: true,
            widget_rect_active: true,
            widget_sizes: false,
            widget_ids: false,
        }
    }
}

/// The tree `update` wraps around the host's root widget and runs the
/// three passes on: a root layout with that widget as its single,
/// exclusive, top-left anchored child.
pub open spec fn spec_wrapped_root(root: WModel, bounds: Rectangle) -> WModel {
    WModel {
        widget: WidgetModel::Root(
            RootModel {
                children: seq![
                    RootChildModel {
                        widget: root,
                        dimensions: bounds,
                        exclusive: true,
                        anchor: Anchor::TopLeft,
                    },
                ],
            },
        ),
        computed_rect: crate::geometry::spec_zero_rect(),
        requested_size: Size { width: 0, height: 0 },
        id: 0,
    }
}

/// The event a frame is drawn with: the pending interaction event if
/// there is one, else the pending motion event.
pub open spec fn spec_frame_event(motion: SystemEvent, interaction: SystemEvent) -> SystemEvent {
    if interaction == SystemEvent::Idle {
        motion
    } else {
        interaction
    }
}

/// The per-frame UI state.  The host constructs one and keeps it
/// across frames; the event slots and the focus index mutate every
/// frame.
pub struct UiContext {
    /// The active style sheet.
    pub stylesheet: StyleSheet,
    /// What the debug overlay shows.
    pub debug_options: DebugOptions,
    /// Interaction ids are drawn from here in construction order.
    pub ids: IdAllocator,
    /// The pending motion or focus event.
    pub motion_event: SystemEvent,
    /// The pending interaction event.
    pub interaction_event: SystemEvent,
    /// How many interactive widgets the last frame saw.
    pub elements_count: usize,
    /// The interaction id that has the focus.
    pub focused_element: usize,
}

impl UiContext {
    pub open spec fn spec_motion_event(self) -> SystemEvent {
        self.motion_event
    }

    pub open spec fn spec_interaction_event(self) -> SystemEvent {
        self.interaction_event
    }

    pub open spec fn spec_elements_count(self) -> usize {
        self.elements_count
    }

    pub open spec fn spec_focused_element(self) -> usize {
        self.focused_element
    }

    /// A fresh context over a style sheet: nothing pending, nothing
    /// focused, no widgets seen yet.
    pub fn new(stylesheet: StyleSheet) -> (r: UiContext)
        ensures
            r.stylesheet == stylesheet,
            r.spec_motion_event() == SystemEvent::Idle,
            r.spec_interaction_event() == SystemEvent::Idle,
            r.spec_elements_count() == 0,
            r.spec_focused_element() == 0,
            r.ids.counter == 0,
            r.debug_options == (DebugOptions {
                enabled: false,
                widget_rects: true,
                widget_rect_active: true,
                widget_sizes: false,
                widget_ids: false,
            }),
    {
        UiContext {
            stylesheet,
            debug_options: Default::default(),
            ids: IdAllocator::new(),
            motion_event: SystemEvent::Idle,
            interaction_event: SystemEvent::Idle,
            elements_count: 0,
            focused_element: 0,
        }
    }

    /// Queues an event for the next frame.  The queue keeps one motion
    /// event and one interaction event: a newer event of the same kind
    /// replaces the pending one, so the queue never grows.
    pub fn push_event(&mut self, event: SystemEvent)
        ensures
            (if event.spec_is_motion_event() {
                final(self).spec_motion_event() == event && final(self).spec_interaction_event()
                    == old(self).spec_interaction_event()
            } else {
                final(self).spec_interaction_event() == event && final(self).spec_motion_event()
                    == old(self).spec_motion_event()
            }),
            final(self).stylesheet == old(self).stylesheet,
            final(self).spec_elements_count() == old(self).spec_elements_count(),
            final(self).spec_focused_element() == old(self).spec_focused_element(),
            final(self).ids == old(self).ids,
            final(self).debug_options == old(self).debug_options,
    {
        if event.is_motion_event() {
            self.motion_event = event;
        } else {
            self.interaction_event = event;
        }
    }

    /// The interaction id that currently has the focus.
    pub fn get_focused_widget_id(&self) -> (r: usize)
        ensures
            r == self.spec_focused_element(),
    {
        self.focused_element
    }

    /// Moves the focus to the next interactive widget, wrapping back
    /// to the first when it runs past the count seen last frame, and
    /// queues the focus event.
    pub fn next_widget(&mut self)
        requires
            old(self).spec_elements_count() >= 1,
        ensures
            final(self).spec_focused_element() == (if old(self).spec_focused_element() + 1 >= old(
                self,
            ).spec_elements_count() {
                1usize
            } else {
                (old(self).spec_focused_element() + 1) as usize
            }),
            final(self).spec_motion_event() == SystemEvent::FocusTo(
                final(self).spec_focused_element(),
            ),
            final(self).spec_interaction_event() == old(self).spec_interaction_event(),
            final(self).stylesheet == old(self).stylesheet,
            final(self).spec_elements_count() == old(self).spec_elements_count(),
    {
        if self.focused_element >= self.elements_count - 1 {
            self.focused_element = 1;
        } else {
            self.focused_element = self.focused_element + 1;
        }
        let target = self.focused_element;
        self.push_event(SystemEvent::FocusTo(target));
    }

    /// Moves the focus to the previous interactive widget, wrapping to
    /// the last when it runs below the first, and queues the focus
    /// event.
    pub fn previous_widget(&mut self)
        requires
            old(self).spec_elements_count() >= 1,
        ensures
            final(self).spec_focused_element() == (if old(self).spec_focused_element() <= 1 {
                (old(self).spec_elements_count() - 1) as usize
            } else {
                (old(self).spec_focused_element() - 1) as usize
            }),
            final(self).spec_motion_event() == SystemEvent::FocusTo(
                final(self).spec_focused_element(),
            ),
            final(self).spec_interaction_event() == old(self).spec_interaction_event(),
            final(self).stylesheet == old(self).stylesheet,
            final(self).spec_elements_count() == old(self).spec_elements_count(),
    {
        if self.focused_element <= 1 {
            self.focused_element = self.elements_count - 1;
        } else {
            self.focused_element = self.focused_element - 1;
        }
        let target = self.focused_element;
        self.push_event(SystemEvent::FocusTo(target));
    }

    /// Queues an activation of the focused widget.
    pub fn activate_selected_widget(&mut self)
        ensures
            final(self).spec_interaction_event() == SystemEvent::ActiveTo(
                old(self).spec_focused_element(),
            ),
            final(self).spec_motion_event() == old(self).spec_motion_event(),
            final(self).spec_focused_element() == old(self).spec_focused_element(),
            final(self).spec_elements_count() == old(self).spec_elements_count(),
            final(self).stylesheet == old(self).stylesheet,
    {
        let target = self.focused_element;
        self.push_event(SystemEvent::ActiveTo(target));
    }

    /// Switches the debug overlay on or off.
    pub fn toggle_debug_mode(&mut self)
        ensures
            final(self).debug_options.enabled == !old(self).debug_options.enabled,
    {
        self.debug_options.enabled = !self.debug_options.enabled;
    }

    /// Whether the debug overlay is enabled.
    pub fn is_debug_enaled(&self) -> (r: bool)
        ensures
            r == self.debug_options.enabled,
    {
        self.debug_options.enabled
    }

    /// Resolves a style against this context's sheet.
    pub fn resolve_style(
        &self,
        selectors: &[SelectorKind],
        modifier: Modifier,
        part: Part,
    ) -> (r: Style)
        ensures
            r == spec_resolve(
                sheet_model(self.stylesheet@),
                kinds_model(selectors@),
                modifier,
                part.model(),
            ),
    {
        resolve_style(selectors, self.stylesheet.as_slice(), modifier, part)
    }

    /// Resolves a style against this context's sheet, outside any
    /// interaction state.
    pub fn resolve_style_static(&self, selectors: &[SelectorKind], part: Part) -> (r: Style)
        ensures
            r == spec_resolve(
                sheet_model(self.stylesheet@),
                kinds_model(selectors@),
                Modifier::Normal,
                part.model(),
            ),
    {
        resolve_style(selectors, self.stylesheet.as_slice(), Modifier::Normal, part)
    }

    /// Runs one frame over the host's root widget: wraps it in a root
    /// layout covering `bounds`, runs the size, layout and draw
    /// passes, and hands back the laid-out tree (for the host to
    /// paint) with the widgets' reactions.  The frame is drawn with
    /// the pending interaction event if there is one (which this
    /// consumes), else with the pending motion event; the count of
    /// interactive widgets is taken over from the id allocator, which
    /// restarts for the next frame.
    pub fn update(&mut self, root: WidgetObj, bounds: Rectangle) -> (r: (
        WidgetObj,
        EventResult,
        Vec<Command>,
    ))
        requires
            wf_node(root.model()),
        ensures
            ({
                let wrapped = spec_wrapped_root(root.model(), bounds);
                let sized = spec_obj_size(wrapped, bounds.size).0;
                let laid = spec_obj_layout(sized, bounds);
                let event = spec_frame_event(
                    old(self).spec_motion_event(),
                    old(self).spec_interaction_event(),
                );
                let out = spec_obj_draw(laid, event, old(self).spec_focused_element());
                &&& r.0.model() == laid
                &&& r.1 == out.result
                &&& r.2@ == out.commands
                &&& final(self).spec_focused_element() == out.focused
                &&& final(self).spec_interaction_event() == SystemEvent::Idle
                &&& final(self).spec_motion_event() == old(self).spec_motion_event()
            }),
            final(self).spec_elements_count() == old(self).ids.counter,
            final(self).ids.counter == 1,
            final(self).stylesheet == old(self).stylesheet,
    {
        self.elements_count = self.ids.counter;
        self.ids.counter = 1;
        let mut root_layout = RootLayout { children: Vec::new() };
        root_layout.add_widget_obj(root, bounds, true, Anchor::TopLeft);
        let mut tree = WidgetObj::new(Widget::Root(root_layout));
        proof {
            assert(tree.model() == spec_wrapped_root(root.model(), bounds)) by {
                assert(tree.model().widget matches WidgetModel::Root(r2) && r2.children
                    =~= spec_wrapped_root(root.model(), bounds).widget->Root_0.children);
            }
        }
        tree.size(bounds.size);
        tree.layout(bounds);
        let event = if self.interaction_event == SystemEvent::Idle {
            self.motion_event
        } else {
            let e = self.interaction_event;
            self.interaction_event = SystemEvent::Idle;
            e
        };
        let mut commands: Vec<Command> = Vec::new();
        let mut focused = self.focused_element;
        let result = tree.draw(&event, &mut focused, &mut commands);
        self.focused_element = focused;
        (tree, result, commands)
    }
}

} // verus!
