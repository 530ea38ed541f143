use vstd::prelude::*;
use std::collections::HashMap;
use crate::ecs::entity::copy_ids;

verus! {

broadcast use vstd::std_specs::hash::group_hash_axioms;

/// Identifier of an event type (every kind of event gets one such number).
pub type EventTypeId = u64;

/// Identifier under which the application keeps a listener or an entity modifier.
pub type HandlerId = u64;

/// All possible states of the engine that influence its behavior. Can be changed by
/// triggering an ``EngineModeChange`` event.
#[derive(Debug, Clone, Copy, PartialEq, Eq, Structural)]
pub enum EngineMode {
    Running,
    Editor,
}

/// Every struct that is supposed to be added to the event system as a listener has to
/// implement this trait for the specific type of event it should listen to.
pub trait EventObserver<T> {
    /// Runs on every event trigger.
    fn on_event(&mut self, event: &T);
}

/// Window resize event data.
#[derive(Debug, Clone, Copy, PartialEq, Eq, Structural)]
pub struct WindowResize {
    pub width: u32,
    pub height: u32,
}

/// Window focus lost event.
#[derive(Debug, Clone, Copy, PartialEq, Eq, Structural)]
pub struct WindowLostFocus;

/// Window focus gained event.
#[derive(Debug, Clone, Copy, PartialEq, Eq, Structural)]
pub struct WindowGainedFocus;

/// Window move event.
#[derive(Debug, Clone, Copy, PartialEq, Eq, Structural)]
pub struct WindowMoved {
    pub to_x: u32,
    pub to_y: u32,
}

/// File drop event.
#[derive(Debug, Clone)]
pub struct FileDropped {
    pub path: String,
}

/// File hover event.
#[derive(Debug, Clone)]
pub struct FileHovered {
    pub path: String,
}

/// File hover cancel event.
#[derive(Debug, Clone, Copy, PartialEq, Eq, Structural)]
pub struct FileHoverCancelled;

/// Global change of the engine mode.
#[derive(Debug, Clone, Copy, PartialEq, Eq, Structural)]
pub struct EngineModeChange {
    pub new_mode: EngineMode,
}

/// Toggles the fps cap functionality.
#[derive(Debug, Clone, Copy, PartialEq, Eq, Structural)]
pub struct FPSCapToggle;

/// Key press event data (``key`` is the numeric code of the physical key).
#[derive(Debug, Clone, Copy, PartialEq, Eq, Structural)]
pub struct KeyPress {
    pub key: u32,
    pub is_synthetic: bool,
    pub is_repeat: bool,
}

/// Key release event data (``key`` is the numeric code of the physical key).
#[derive(Debug, Clone, Copy, PartialEq, Eq, Structural)]
pub struct KeyRelease {
    pub key: u32,
    pub is_synthetic: bool,
    pub is_repeat: bool,
}

/// Mouse click event data (``button`` is the numeric code of the mouse button).
#[derive(Debug, Clone, Copy, PartialEq, Eq, Structural)]
pub struct MouseClick {
    pub button: u16,
}

/// Mouse release event data (``button`` is the numeric code of the mouse button).
#[derive(Debug, Clone, Copy, PartialEq, Eq, Structural)]
pub struct MouseRelease {
    pub button: u16,
}

/// A window event of the windowing layer, as plain values (the kinds that the engine turns
/// into events of its own without floating point data).
#[derive(Debug)]
pub enum WindowInput {
    /// ``key_code`` is ``None`` for keys without a known physical key code.
    KeyboardInput { pressed: bool, key_code: Option<u32>, is_synthetic: bool, is_repeat: bool },
    MouseInput { pressed: bool, button: u16 },
    Resized { width: u32, height: u32 },
    Focused(bool),
    Moved { x: i32, y: i32 },
    DroppedFile(String),
    HoveredFile(String),
    HoveredFileCancelled,
    Other,
}

/// The engine event that a window event gets turned into.
#[derive(Debug)]
pub enum EngineEvent {
    KeyPress(KeyPress),
    KeyRelease(KeyRelease),
    MouseClick(MouseClick),
    MouseRelease(MouseRelease),
    WindowResize(WindowResize),
    WindowGainedFocus(WindowGainedFocus),
    WindowLostFocus(WindowLostFocus),
    WindowMoved(WindowMoved),
    FileDropped(FileDropped),
    FileHovered(FileHovered),
    FileHoverCancelled(FileHoverCancelled),
}

/// The engine event for a window event, if there is one.
pub open spec fn spec_window_event(input: WindowInput) -> Option<EngineEvent> {
    match input {
        WindowInput::KeyboardInput { pressed, key_code, is_synthetic, is_repeat } => match key_code {
            Some(key) => if pressed {
                Some(EngineEvent::KeyPress(KeyPress { key, is_synthetic, is_repeat }))
            } else {
                Some(EngineEvent::KeyRelease(KeyRelease { key, is_synthetic, is_repeat }))
            },
            None => None,
        },
        WindowInput::MouseInput { pressed, button } => if pressed {
            Some(EngineEvent::MouseClick(MouseClick { button }))
        } else {
            Some(EngineEvent::MouseRelease(MouseRelease { button }))
        },
        WindowInput::Resized { width, height } => Some(
            EngineEvent::WindowResize(WindowResize { width, height }),
        ),
        WindowInput::Focused(gained) => if gained {
            Some(EngineEvent::WindowGainedFocus(WindowGainedFocus))
        } else {
            Some(EngineEvent::WindowLostFocus(WindowLostFocus))
        },
        WindowInput::Moved { x, y } => Some(
            EngineEvent::WindowMoved(WindowMoved { to_x: x as u32, to_y: y as u32 }),
        ),
        WindowInput::DroppedFile(path) => Some(EngineEvent::FileDropped(FileDropped { path })),
        WindowInput::HoveredFile(path) => Some(EngineEvent::FileHovered(FileHovered { path })),
        WindowInput::HoveredFileCancelled => Some(
            EngineEvent::FileHoverCancelled(FileHoverCancelled),
        ),
        WindowInput::Other => None,
    }
}

/// What each kind of window input has to turn into, kind by kind: a key press or release
/// of a known key gives a press or release event of that key (unknown keys give nothing), a
/// pressed mouse button a click of that button and a released one a release, resizing,
/// focus changes, moving and file drops the matching window events with the same data, and
/// other input nothing.
pub open spec fn window_event_rules(input: WindowInput, r: Option<EngineEvent>) -> bool {
    &&& input matches WindowInput::KeyboardInput { pressed, key_code, is_synthetic, is_repeat } ==> {
        &&& key_code is None ==> r is None
        &&& key_code matches Some(key) ==> {
            &&& pressed ==> r == Some(EngineEvent::KeyPress(KeyPress { key, is_synthetic, is_repeat }))
            &&& !pressed ==> r == Some(EngineEvent::KeyRelease(KeyRelease { key, is_synthetic, is_repeat }))
        }
    }
    &&& input matches WindowInput::MouseInput { pressed, button } ==> {
        &&& pressed ==> r == Some(EngineEvent::MouseClick(MouseClick { button }))
        &&& !pressed ==> r == Some(EngineEvent::MouseRelease(MouseRelease { button }))
    }
    &&& input matches WindowInput::Resized { width, height } ==> r == Some(
        EngineEvent::WindowResize(WindowResize { width, height }),
    )
    &&& input matches WindowInput::Focused(gained) ==> {
        &&& gained ==> r == Some(EngineEvent::WindowGainedFocus(WindowGainedFocus))
        &&& !gained ==> r == Some(EngineEvent::WindowLostFocus(WindowLostFocus))
    }
    &&& input matches WindowInput::Moved { x, y } ==> r == Some(
        EngineEvent::WindowMoved(WindowMoved { to_x: x as u32, to_y: y as u32 }),
    )
    &&& input matches WindowInput::DroppedFile(path) ==> r == Some(
        EngineEvent::FileDropped(FileDropped { path }),
    )
    &&& input matches WindowInput::HoveredFile(path) ==> r == Some(
        EngineEvent::FileHovered(FileHovered { path }),
    )
    &&& input is HoveredFileCancelled ==> r == Some(EngineEvent::FileHoverCancelled(FileHoverCancelled))
    &&& input is Other ==> r is None
}

/// What each kind of window input turns into: a key press or release of a known key gives a
/// key press or release event for that key (unknown keys give nothing), a pressed mouse button
/// a click of that button and a released one a release, resizing, focus changes, moving and
/// file drops the matching window events with the same data, and other input nothing.
pub proof fn lemma_window_event_kinds(input: WindowInput)
    ensures
        window_event_rules(input, spec_window_event(input)),
{
}

/// Pressing and releasing the same mouse button give a click and a release of that button.
pub proof fn lemma_press_release(button: u16)
    ensures
        spec_window_event((WindowInput::MouseInput { pressed: true, button })) == Some(
            EngineEvent::MouseClick((MouseClick { button })),
        ),
        spec_window_event((WindowInput::MouseInput { pressed: false, button })) == Some(
            EngineEvent::MouseRelease((MouseRelease { button })),
        ),
{
}

/// Turns a window event into the engine event that gets triggered for it (``None`` if the
/// window event triggers nothing).
pub fn parse_window_event(input: WindowInput) -> (r: Option<EngineEvent>)
    ensures
        r == spec_window_event(input),
        window_event_rules(input, r),
{
    match input {
        WindowInput::KeyboardInput { pressed, key_code, is_synthetic, is_repeat } => match key_code {
            Some(key) => if pressed {
                Some(EngineEvent::KeyPress(KeyPress { key, is_synthetic, is_repeat }))
            } else {
                Some(EngineEvent::KeyRelease(KeyRelease { key, is_synthetic, is_repeat }))
            },
            None => None,
        },
        WindowInput::MouseInput { pressed, button } => if pressed {
            Some(EngineEvent::MouseClick(MouseClick { button }))
        } else {
            Some(EngineEvent::MouseRelease(MouseRelease { button }))
        },
        WindowInput::Resized { width, height } => Some(
            EngineEvent::WindowResize(WindowResize { width, height }),
        ),
        WindowInput::Focused(gained) => if gained {
            Some(EngineEvent::WindowGainedFocus(WindowGainedFocus))
        } else {
            Some(EngineEvent::WindowLostFocus(WindowLostFocus))
        },
        WindowInput::Moved { x, y } => Some(
            EngineEvent::WindowMoved(WindowMoved { to_x: x as u32, to_y: y as u32 }),
        ),
        WindowInput::DroppedFile(path) => Some(EngineEvent::FileDropped(FileDropped { path })),
        WindowInput::HoveredFile(path) => Some(EngineEvent::FileHovered(FileHovered { path })),
        WindowInput::HoveredFileCancelled => Some(
            EngineEvent::FileHoverCancelled(FileHoverCancelled),
        ),
        WindowInput::Other => None,
    }
}

/// System managing the events: which listeners and which entity modifiers are registered
/// for which event type. Triggering an event yields the handlers to run, in registration
/// order (first the listeners, then the modifiers).
pub struct EventSystem {
    listeners: HashMap<EventTypeId, Vec<HandlerId>>,
    entity_modifiers: HashMap<EventTypeId, Vec<HandlerId>>,
}

/// The registered handlers of one event type (none if nothing was registered).
pub open spec fn handlers_of(m: Map<EventTypeId, Seq<HandlerId>>, t: EventTypeId) -> Seq<HandlerId> {
    if m.contains_key(t) {
        m[t]
    } else {
        Seq::empty()
    }
}

/// Appends a handler to the list of an event type.
fn register(m: &mut HashMap<EventTypeId, Vec<HandlerId>>, t: EventTypeId, h: HandlerId)
    ensures
        forall|u: EventTypeId| #[trigger] final(m)@.contains_key(u) ==> (u == t || old(m)@.contains_key(u)),
        final(m)@.contains_key(t),
        final(m)@[t]@ == (if old(m)@.contains_key(t) {
            old(m)@[t]@
        } else {
            Seq::empty()
        }).push(h),
        forall|u: EventTypeId| u != t && #[trigger] old(m)@.contains_key(u) ==> final(m)@.contains_key(u) && final(m)@[u] == old(m)@[u],
{
    let mut list = match m.get(&t) {
        Some(v) => copy_ids(v),
        None => Vec::new(),
    };
    list.push(h);
    m.insert(t, list);
}

impl EventSystem {
    /// The registered listeners by event type.
    pub closed spec fn listener_map(&self) -> Map<EventTypeId, Seq<HandlerId>> {
        self.listeners@.map_values(|v: Vec<HandlerId>| v@)
    }

    /// The registered entity modifiers by event type.
    pub closed spec fn modifier_map(&self) -> Map<EventTypeId, Seq<HandlerId>> {
        self.entity_modifiers@.map_values(|v: Vec<HandlerId>| v@)
    }

    /// Creates a new event system without handlers.
    pub fn new() -> (r: Self)
        ensures
            forall|t: EventTypeId| handlers_of(r.listener_map(), t) == Seq::<HandlerId>::empty(),
            forall|t: EventTypeId| handlers_of(r.modifier_map(), t) == Seq::<HandlerId>::empty(),
    {
        Self { listeners: HashMap::new(), entity_modifiers: HashMap::new() }
    }

    /// Subscribes a listener to a specific event type.
    pub fn add_listener(&mut self, event_type: EventTypeId, listener: HandlerId)
        ensures
            handlers_of(final(self).listener_map(), event_type) == handlers_of(
                old(self).listener_map(),
                event_type,
            ).push(listener),
            forall|t: EventTypeId| t != event_type ==> #[trigger] handlers_of(final(self).listener_map(), t)
                == handlers_of(old(self).listener_map(), t),
            final(self).modifier_map() == old(self).modifier_map(),
    {
        register(&mut self.listeners, event_type, listener);
        assert forall|t: EventTypeId| t != event_type implies #[trigger] handlers_of(self.listener_map(), t)
            == handlers_of(old(self).listener_map(), t) by {
            if self.listeners@.contains_key(t) {
                assert(old(self).listeners@.contains_key(t));
            }
        }
    }

    /// Adds an entity modifier for a specific event type.
    pub fn add_modifier(&mut self, event_type: EventTypeId, modifier: HandlerId)
        ensures
            handlers_of(final(self).modifier_map(), event_type) == handlers_of(
                old(self).modifier_map(),
                event_type,
            ).push(modifier),
            forall|t: EventTypeId| t != event_type ==> #[trigger] handlers_of(final(self).modifier_map(), t)
                == handlers_of(old(self).modifier_map(), t),
            final(self).listener_map() == old(self).listener_map(),
    {
        register(&mut self.entity_modifiers, event_type, modifier);
        assert forall|t: EventTypeId| t != event_type implies #[trigger] handlers_of(self.modifier_map(), t)
            == handlers_of(old(self).modifier_map(), t) by {
            if self.entity_modifiers@.contains_key(t) {
                assert(old(self).entity_modifiers@.contains_key(t));
            }
        }
    }

    /// Triggers an event: yields the listeners and then the entity modifiers registered for
    /// the event's type, each in registration order.
    pub fn trigger(&self, event_type: EventTypeId) -> (r: (Vec<HandlerId>, Vec<HandlerId>))
        ensures
            r.0@ == handlers_of(self.listener_map(), event_type),
            r.1@ == handlers_of(self.modifier_map(), event_type),
    {
        let ls = match self.listeners.get(&event_type) {
            Some(v) => copy_ids(v),
            None => Vec::new(),
        };
        let ms = match self.entity_modifiers.get(&event_type) {
            Some(v) => copy_ids(v),
            None => Vec::new(),
        };
        (ls, ms)
    }
}

} // verus!
