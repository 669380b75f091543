//! Input: the actions keys and buttons are bound to, the state of keys,
//! buttons and actions, and whether the player is placing something.
use vstd::prelude::*;
use crate::event::Channel;

verus! {

/// What a designation marks tiles for.
#[derive(Debug, Copy, Clone, PartialEq, Eq, Hash, Structural)]
pub enum DesignateAction {
    Channel,
    Dig,
    ChopTree,
    Stockpile,
}

/// The actions keys and buttons can be bound to.
#[derive(Debug, Copy, Clone, PartialEq, Eq, Hash, Structural)]
pub enum ActionBinding {
    CameraLeft,
    CameraRight,
    CameraUp,
    CameraDown,
    CameraZoomIn,
    CameraZoomOut,
    CameraZUp,
    CameraZDown,
    Selection,
    DoAction,
    DebugWriteMap,
    DesignateDig,
    DesignateMine,
    Delete,
}

impl ActionBinding {
    /// The position of the action in declaration order.
    pub open spec fn spec_index(self) -> nat {
        match self {
            ActionBinding::CameraLeft => 0,
            ActionBinding::CameraRight => 1,
            ActionBinding::CameraUp => 2,
            ActionBinding::CameraDown => 3,
            ActionBinding::CameraZoomIn => 4,
            ActionBinding::CameraZoomOut => 5,
            ActionBinding::CameraZUp => 6,
            ActionBinding::CameraZDown => 7,
            ActionBinding::Selection => 8,
            ActionBinding::DoAction => 9,
            ActionBinding::DebugWriteMap => 10,
            ActionBinding::DesignateDig => 11,
            ActionBinding::DesignateMine => 12,
            ActionBinding::Delete => 13,
        }
    }

    pub fn index(self) -> (r: usize)
        ensures
            r == self.spec_index(),
    {
        match self {
            ActionBinding::CameraLeft => 0,
            ActionBinding::CameraRight => 1,
            ActionBinding::CameraUp => 2,
            ActionBinding::CameraDown => 3,
            ActionBinding::CameraZoomIn => 4,
            ActionBinding::CameraZoomOut => 5,
            ActionBinding::CameraZUp => 6,
            ActionBinding::CameraZDown => 7,
            ActionBinding::Selection => 8,
            ActionBinding::DoAction => 9,
            ActionBinding::DebugWriteMap => 10,
            ActionBinding::DesignateDig => 11,
            ActionBinding::DesignateMine => 12,
            ActionBinding::Delete => 13,
        }
    }
}

/// A bound action starting or ending.
#[derive(Debug, Copy, PartialEq, Eq, Hash, Structural)]
pub enum InputActionEvent {
    Released(ActionBinding),
    Pressed(ActionBinding),
}

impl Clone for InputActionEvent {
    fn clone(&self) -> (r: Self)
        ensures
            r == *self,
    {
        *self
    }
}

/// Whether the player is selecting or placing something. Selecting is
/// the default.
#[derive(Debug, Copy, Clone, PartialEq, Eq, Hash, Structural)]
pub enum InputStateKind {
    Selection,
    Placement,
}

impl InputStateKind {
    pub fn default() -> (r: InputStateKind)
        ensures
            r == InputStateKind::Selection,
    {
        InputStateKind::Selection
    }
}

/// A placement in progress: how to draw it, complete it and cancel it.
pub struct PlacementRequestImpl<D, C, F> {
    pub on_draw_fn: D,
    pub on_complete_fn: C,
    pub on_cancel_fn: F,
}

impl<D, C, F> PlacementRequestImpl<D, C, F> {
    pub fn new(on_draw_fn: D, on_complete_fn: C, on_cancel_fn: F) -> (r: PlacementRequestImpl<D, C, F>)
        ensures
            r.on_draw_fn == on_draw_fn,
            r.on_complete_fn == on_complete_fn,
            r.on_cancel_fn == on_cancel_fn,
    {
        PlacementRequestImpl { on_draw_fn, on_complete_fn, on_cancel_fn }
    }
}

/// The buttons of a mouse.
#[derive(Debug, Copy, Clone, PartialEq, Eq, Hash, Structural)]
pub enum MouseButton {
    Left,
    Right,
    Middle,
    Other(u16),
}

/// Where the state of a button is kept: left 0, right 2, middle 3, and
/// the others from 4 on.
pub open spec fn spec_mouse_index(button: MouseButton) -> int {
    match button {
        MouseButton::Left => 0,
        MouseButton::Right => 2,
        MouseButton::Middle => 3,
        MouseButton::Other(v) => 4 + v,
    }
}

pub fn mouse_index(button: MouseButton) -> (r: usize)
    ensures
        r == spec_mouse_index(button),
{
    match button {
        MouseButton::Left => 0,
        MouseButton::Right => 2,
        MouseButton::Middle => 3,
        MouseButton::Other(v) => 4 + v as usize,
    }
}

/// What an action is bound to: a key, by its key code, or a mouse button,
/// each with the modifiers that must be held, if any.
#[derive(Debug, Copy, Clone, PartialEq, Eq, Hash, Structural)]
pub enum Binding {
    Key(usize, Option<u32>),
    Mouse(MouseButton, Option<u32>),
}

/// The action `b` is bound to in `entries`: the last one given for it.
pub open spec fn bound_action(entries: Seq<(Binding, ActionBinding)>, b: Binding) -> Option<ActionBinding>
    decreases entries.len(),
{
    if entries.len() == 0 {
        None
    } else if entries.last().0 == b {
        Some(entries.last().1)
    } else {
        bound_action(entries.drop_last(), b)
    }
}

/// The actions keys and buttons are bound to, one per binding.
pub struct BindingMap {
    entries: Vec<(Binding, ActionBinding)>,
}

impl BindingMap {
    /// The bindings with their actions, in the order they were first bound.
    pub closed spec fn entries(&self) -> Seq<(Binding, ActionBinding)> {
        self.entries@
    }

    /// The action `b` is bound to, if any.
    pub open spec fn spec_get(&self, b: Binding) -> Option<ActionBinding> {
        bound_action(self.entries(), b)
    }

    /// No binding.
    pub fn new() -> (r: BindingMap)
        ensures
            r.entries() == Seq::<(Binding, ActionBinding)>::empty(),
    {
        BindingMap { entries: Vec::new() }
    }

    /// The action `b` is bound to, if any.
    pub fn get(&self, b: &Binding) -> (r: Option<ActionBinding>)
        ensures
            r == self.spec_get(*b),
    {
        let mut i = self.entries.len();
        proof {
            assert(self.entries@.subrange(0, i as int) =~= self.entries@);
        }
        while i > 0
            invariant
                i <= self.entries@.len(),
                bound_action(self.entries@, *b) == bound_action(self.entries@.subrange(0, i as int), *b),
            decreases i,
        {
            let j = i - 1;
            proof {
                let sub = self.entries@.subrange(0, i as int);
                assert(sub.drop_last() =~= self.entries@.subrange(0, j as int));
            }
            if self.entries[j].0 == *b {
                return Some(self.entries[j].1);
            }
            i = j;
        }
        None
    }

    /// Binds `b` to `action`; gives back the action it was bound to before.
    pub fn insert(&mut self, b: Binding, action: ActionBinding) -> (r: Option<ActionBinding>)
        ensures
            r == old(self).spec_get(b),
            final(self).spec_get(b) == Some(action),
            forall|c: Binding| c != b ==> #[trigger] final(self).spec_get(c) == old(self).spec_get(c),
    {
        let previous = self.get(&b);
        self.entries.push((b, action));
        proof {
            assert(self.entries@.drop_last() =~= old(self).entries@);
        }
        previous
    }
}

/// Which keys, buttons and actions are down, whether mouse or keyboard
/// input is ignored, and whether the player is placing something.
pub struct InputState {
    pub mouse_state: [bool; 16],
    pub key_state: [bool; 255],
    pub modifiers_state: u32,
    pub action_state: [bool; 255],
    pub bindings: BindingMap,
    pub ignore_mouse: bool,
    pub ignore_keyboard: bool,
    pub state: InputStateKind,
}

impl InputState {
    /// Nothing down, nothing ignored, selecting.
    pub fn default() -> (r: InputState)
        ensures
            forall|i: int| 0 <= i < 16 ==> !#[trigger] r.mouse_state@[i],
            forall|i: int| 0 <= i < 255 ==> !#[trigger] r.key_state@[i],
            forall|i: int| 0 <= i < 255 ==> !#[trigger] r.action_state@[i],
            !r.ignore_mouse,
            !r.ignore_keyboard,
            r.state == InputStateKind::Selection,
            r.modifiers_state == 0,
            r.bindings.entries() == Seq::<(Binding, ActionBinding)>::empty(),
    {
        InputState {
            mouse_state: [false; 16],
            key_state: [false; 255],
            modifiers_state: 0,
            action_state: [false; 255],
            bindings: BindingMap::new(),
            ignore_mouse: false,
            ignore_keyboard: false,
            state: InputStateKind::default(),
        }
    }

    pub fn is_key_down(&self, key: usize) -> (r: bool)
        requires
            key < 255,
        ensures
            r == self.key_state@[key as int],
    {
        self.key_state[key]
    }

    pub fn is_action_down(&self, action: ActionBinding) -> (r: bool)
        ensures
            r == self.action_state@[action.spec_index() as int],
    {
        self.action_state[action.index()]
    }

    /// Records the key `key` as pressed or released; tells whether that
    /// changed its state.
    pub fn record_key(&mut self, key: usize, pressed: bool) -> (changed: bool)
        requires
            key < 255,
        ensures
            final(self).key_state@ == old(self).key_state@.update(key as int, pressed),
            changed == (old(self).key_state@[key as int] != pressed),
            final(self).mouse_state == old(self).mouse_state,
            final(self).action_state == old(self).action_state,
            final(self).state == old(self).state,
            final(self).bindings == old(self).bindings,
            final(self).modifiers_state == old(self).modifiers_state,
            final(self).ignore_mouse == old(self).ignore_mouse,
            final(self).ignore_keyboard == old(self).ignore_keyboard,
    {
        let last = self.key_state[key];
        self.key_state[key] = pressed;
        last != pressed
    }

    /// Records the button `button` as pressed or released; tells whether
    /// that changed its state.
    pub fn record_mouse(&mut self, button: MouseButton, pressed: bool) -> (changed: bool)
        requires
            spec_mouse_index(button) < 16,
        ensures
            final(self).mouse_state@ == old(self).mouse_state@.update(spec_mouse_index(button), pressed),
            changed == (old(self).mouse_state@[spec_mouse_index(button)] != pressed),
            final(self).key_state == old(self).key_state,
            final(self).action_state == old(self).action_state,
            final(self).state == old(self).state,
            final(self).bindings == old(self).bindings,
            final(self).modifiers_state == old(self).modifiers_state,
            final(self).ignore_mouse == old(self).ignore_mouse,
            final(self).ignore_keyboard == old(self).ignore_keyboard,
    {
        let i = mouse_index(button);
        let last = self.mouse_state[i];
        self.mouse_state[i] = pressed;
        last != pressed
    }

    /// Records the action an event starts or ends; gives the event to send.
    pub fn record_action(&mut self, action: ActionBinding, pressed: bool) -> (r: InputActionEvent)
        ensures
            final(self).action_state@ == old(self).action_state@.update(action.spec_index() as int, pressed),
            r == if pressed { InputActionEvent::Pressed(action) } else { InputActionEvent::Released(action) },
            final(self).key_state == old(self).key_state,
            final(self).mouse_state == old(self).mouse_state,
            final(self).state == old(self).state,
            final(self).bindings == old(self).bindings,
            final(self).modifiers_state == old(self).modifiers_state,
            final(self).ignore_mouse == old(self).ignore_mouse,
            final(self).ignore_keyboard == old(self).ignore_keyboard,
    {
        self.action_state[action.index()] = pressed;
        if pressed {
            InputActionEvent::Pressed(action)
        } else {
            InputActionEvent::Released(action)
        }
    }

    /// A placement starts (cancelling any other first).
    pub fn begin_placement(&mut self)
        ensures
            final(self).state == InputStateKind::Placement,
            final(self).key_state == old(self).key_state,
            final(self).mouse_state == old(self).mouse_state,
            final(self).action_state == old(self).action_state,
            final(self).bindings == old(self).bindings,
            final(self).modifiers_state == old(self).modifiers_state,
            final(self).ignore_mouse == old(self).ignore_mouse,
            final(self).ignore_keyboard == old(self).ignore_keyboard,
    {
        self.state = InputStateKind::Placement;
    }

    /// A placement ends, completed or cancelled: back to selecting.
    pub fn end_placement(&mut self)
        ensures
            final(self).state == InputStateKind::Selection,
            final(self).key_state == old(self).key_state,
            final(self).mouse_state == old(self).mouse_state,
            final(self).action_state == old(self).action_state,
            final(self).bindings == old(self).bindings,
            final(self).modifiers_state == old(self).modifiers_state,
            final(self).ignore_mouse == old(self).ignore_mouse,
            final(self).ignore_keyboard == old(self).ignore_keyboard,
    {
        self.state = InputStateKind::Selection;
    }
}

/// A window event as the input manager reads it: a key, by its key code
/// when it has one, pressed or released; a mouse button pressed or
/// released; or anything else.
#[derive(Debug, Copy, Clone, PartialEq, Eq, Structural)]
pub enum WindowInput {
    Key { code: Option<usize>, pressed: bool },
    Mouse { button: MouseButton, pressed: bool },
    Other,
}

/// Why a window event could not be handled.
#[derive(Debug, Copy, Clone, PartialEq, Eq, Structural)]
pub enum InputError {
    /// A key event came without a key code.
    MissingKeyCode,
}

/// The event for an action starting (`pressed`) or ending.
pub open spec fn action_event(action: ActionBinding, pressed: bool) -> InputActionEvent {
    if pressed { InputActionEvent::Pressed(action) } else { InputActionEvent::Released(action) }
}

/// Every listener of the channel has room for one more event.
pub open spec fn has_room(channel: Channel<InputActionEvent>) -> bool {
    forall|i: int| 0 <= i < channel.queues().len() ==> (#[trigger] channel.queues()[i]).len() < channel.capacities()[i]
}

/// Every listener of `after` got `e` queued, compared with `before`.
pub open spec fn queued_for_all(before: Channel<InputActionEvent>, after: Channel<InputActionEvent>, e: InputActionEvent) -> bool {
    &&& after.wf()
    &&& after.capacities() == before.capacities()
    &&& after.queues().len() == before.queues().len()
    &&& forall|i: int| 0 <= i < before.queues().len() ==> (#[trigger] after.queues()[i]) == before.queues()[i].push(e)
}

/// Sets up input handling.
pub struct InputManager {}

impl InputManager {
    pub fn new() -> (r: InputManager) {
        InputManager {}
    }

    /// Turns a key or button event into the event of the action it is
    /// bound to (bound without modifiers), written to `channel`; a key
    /// also sets the action's state. Tells whether the event was bound.
    pub fn handle_action(event: WindowInput, input_state: &mut InputState, channel: &mut Channel<InputActionEvent>)
        -> (r: Result<bool, InputError>)
        requires
            old(channel).wf(),
            has_room(*old(channel)),
        ensures
            final(input_state).key_state == old(input_state).key_state,
            final(input_state).mouse_state == old(input_state).mouse_state,
            final(input_state).bindings == old(input_state).bindings,
            final(input_state).state == old(input_state).state,
            final(input_state).modifiers_state == old(input_state).modifiers_state,
            final(input_state).ignore_mouse == old(input_state).ignore_mouse,
            final(input_state).ignore_keyboard == old(input_state).ignore_keyboard,
            final(channel).wf(),
            match event {
                WindowInput::Key { code: None, pressed: _ } => r == Err::<bool, InputError>(InputError::MissingKeyCode)
                    && *final(channel) == *old(channel) && final(input_state).action_state == old(input_state).action_state,
                WindowInput::Key { code: Some(k), pressed } => match old(input_state).bindings.spec_get(Binding::Key(k, None)) {
                    Some(a) => r == Ok::<bool, InputError>(true)
                        && final(input_state).action_state@ == old(input_state).action_state@.update(a.spec_index() as int, pressed)
                        && queued_for_all(*old(channel), *final(channel), action_event(a, pressed)),
                    None => r == Ok::<bool, InputError>(false) && *final(channel) == *old(channel)
                        && final(input_state).action_state == old(input_state).action_state,
                },
                WindowInput::Mouse { button, pressed } => final(input_state).action_state == old(input_state).action_state
                    && match old(input_state).bindings.spec_get(Binding::Mouse(button, None)) {
                    Some(a) => r == Ok::<bool, InputError>(true) && queued_for_all(*old(channel), *final(channel), action_event(a, pressed)),
                    None => r == Ok::<bool, InputError>(false) && *final(channel) == *old(channel),
                },
                WindowInput::Other => r == Ok::<bool, InputError>(false) && *final(channel) == *old(channel)
                    && final(input_state).action_state == old(input_state).action_state,
            },
    {
        match event {
            WindowInput::Key { code, pressed } => {
                let code = match code {
                    Some(c) => c,
                    None => return Err(InputError::MissingKeyCode),
                };
                match input_state.bindings.get(&Binding::Key(code, None)) {
                    Some(action) => {
                        let e = input_state.record_action(action, pressed);
                        let _ = channel.write(e);
                        proof {
                            assert forall|i: int| 0 <= i < old(channel).queues().len() implies
                                (#[trigger] channel.queues()[i]) == old(channel).queues()[i].push(e) by {
                                assert(channel.queues()[i].drop_last() == old(channel).queues()[i]);
                                assert(channel.queues()[i] =~= old(channel).queues()[i].push(e));
                            }
                        }
                        Ok(true)
                    },
                    None => Ok(false),
                }
            },
            WindowInput::Mouse { button, pressed } => {
                match input_state.bindings.get(&Binding::Mouse(button, None)) {
                    Some(action) => {
                        let e = if pressed { InputActionEvent::Pressed(action) } else { InputActionEvent::Released(action) };
                        let _ = channel.write(e);
                        proof {
                            assert forall|i: int| 0 <= i < old(channel).queues().len() implies
                                (#[trigger] channel.queues()[i]) == old(channel).queues()[i].push(e) by {
                                assert(channel.queues()[i].drop_last() == old(channel).queues()[i]);
                                assert(channel.queues()[i] =~= old(channel).queues()[i].push(e));
                            }
                        }
                        Ok(true)
                    },
                    None => Ok(false),
                }
            },
            WindowInput::Other => Ok(false),
        }
    }

    /// A key event from the window: ignored while keyboard input is
    /// ignored or when the key has no code. Otherwise the key's state is
    /// recorded, and when that changed it, the key event is due (`true`)
    /// and the action bound to the key is handled as by `handle_action`.
    pub fn on_key(input_state: &mut InputState, code: Option<usize>, pressed: bool, channel: &mut Channel<InputActionEvent>)
        -> (r: bool)
        requires
            code matches Some(k) ==> k < 255,
            old(channel).wf(),
            has_room(*old(channel)),
        ensures
            final(input_state).mouse_state == old(input_state).mouse_state,
            final(input_state).bindings == old(input_state).bindings,
            final(input_state).state == old(input_state).state,
            final(input_state).modifiers_state == old(input_state).modifiers_state,
            final(input_state).ignore_mouse == old(input_state).ignore_mouse,
            final(input_state).ignore_keyboard == old(input_state).ignore_keyboard,
            final(channel).wf(),
            match code {
                Some(k) if !old(input_state).ignore_keyboard => {
                    let changed = old(input_state).key_state@[k as int] != pressed;
                    &&& r == changed
                    &&& final(input_state).key_state@ == old(input_state).key_state@.update(k as int, pressed)
                    &&& match old(input_state).bindings.spec_get(Binding::Key(k, None)) {
                        Some(a) if changed =>
                            final(input_state).action_state@ == old(input_state).action_state@.update(a.spec_index() as int, pressed)
                            && queued_for_all(*old(channel), *final(channel), action_event(a, pressed)),
                        _ => final(input_state).action_state == old(input_state).action_state && *final(channel) == *old(channel),
                    }
                },
                _ => !r && final(input_state).key_state == old(input_state).key_state
                    && final(input_state).action_state == old(input_state).action_state && *final(channel) == *old(channel),
            },
    {
        if input_state.ignore_keyboard {
            return false;
        }
        match code {
            Some(k) => {
                let changed = input_state.record_key(k, pressed);
                if changed {
                    let _ = Self::handle_action(WindowInput::Key { code: Some(k), pressed }, input_state, channel);
                }
                changed
            },
            None => false,
        }
    }

    /// A mouse button event from the window: ignored while mouse input is
    /// ignored. Otherwise the button's state is recorded, and when that
    /// changed it, the button event is due (`true`) and the action bound
    /// to the button is handled as by `handle_action`.
    pub fn on_mouse(input_state: &mut InputState, button: MouseButton, pressed: bool, channel: &mut Channel<InputActionEvent>)
        -> (r: bool)
        requires
            spec_mouse_index(button) < 16,
            old(channel).wf(),
            has_room(*old(channel)),
        ensures
            final(input_state).key_state == old(input_state).key_state,
            final(input_state).action_state == old(input_state).action_state,
            final(input_state).bindings == old(input_state).bindings,
            final(input_state).state == old(input_state).state,
            final(input_state).modifiers_state == old(input_state).modifiers_state,
            final(input_state).ignore_mouse == old(input_state).ignore_mouse,
            final(input_state).ignore_keyboard == old(input_state).ignore_keyboard,
            final(channel).wf(),
            if old(input_state).ignore_mouse {
                !r && final(input_state).mouse_state == old(input_state).mouse_state && *final(channel) == *old(channel)
            } else {
                let changed = old(input_state).mouse_state@[spec_mouse_index(button)] != pressed;
                &&& r == changed
                &&& final(input_state).mouse_state@ == old(input_state).mouse_state@.update(spec_mouse_index(button), pressed)
                &&& match old(input_state).bindings.spec_get(Binding::Mouse(button, None)) {
                    Some(a) if changed => queued_for_all(*old(channel), *final(channel), action_event(a, pressed)),
                    _ => *final(channel) == *old(channel),
                }
            },
    {
        if input_state.ignore_mouse {
            return false;
        }
        let changed = input_state.record_mouse(button, pressed);
        if changed {
            let _ = Self::handle_action(WindowInput::Mouse { button, pressed }, input_state, channel);
        }
        changed
    }
}

} // verus!
