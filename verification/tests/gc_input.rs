use rl_core::components::{Destroy, Entity};
use rl_core::gc::{is_due, queue_destroy, DestroyEvent};
use rl_core::input::{
    mouse_index, ActionBinding, Binding, BindingMap, InputActionEvent, InputError, InputManager,
    InputState, InputStateKind, MouseButton, PlacementRequestImpl, WindowInput,
};
use rl_core::event::{Channel, EnumChannelListenerId, ListenerId};

#[test]
fn destroy_event_keeps_its_parts() {
    let e = DestroyEvent::new(Entity(3), Destroy { delay: 4 });
    assert_eq!(e.entity(), Entity(3));
    assert_eq!(e.parameters().delay, 4);
}

#[test]
fn queued_destruction_is_due_right_away() {
    let meta = queue_destroy(Destroy { delay: 5 }, 100);
    assert_eq!(meta.frame, 105);
    assert!(is_due(&meta, 100));
    assert!(is_due(&meta, 105));
    assert!(!is_due(&meta, 106));
}

#[test]
fn input_state_records_changes() {
    let mut s = InputState::default();
    assert_eq!(s.state, InputStateKind::Selection);
    assert!(s.record_key(10, true));
    assert!(!s.record_key(10, true));
    assert!(s.is_key_down(10));
    assert!(s.record_key(10, false));
    assert!(s.record_mouse(MouseButton::Right, true));
    assert!(s.mouse_state[2]);
    assert_eq!(mouse_index(MouseButton::Other(3)), 7);
    assert_eq!(s.record_action(ActionBinding::Delete, true), InputActionEvent::Pressed(ActionBinding::Delete));
    assert!(s.is_action_down(ActionBinding::Delete));
    assert_eq!(s.record_action(ActionBinding::Delete, false), InputActionEvent::Released(ActionBinding::Delete));
    s.begin_placement();
    assert_eq!(s.state, InputStateKind::Placement);
    s.end_placement();
    assert_eq!(s.state, InputStateKind::Selection);
}

#[test]
fn placement_request_keeps_its_callbacks() {
    let p = PlacementRequestImpl::new(1u8, 2u16, 3u32);
    assert_eq!((p.on_draw_fn, p.on_complete_fn, p.on_cancel_fn), (1, 2, 3));
}

#[test]
fn listener_ids() {
    assert_eq!(ListenerId::new(4).index(), 4);
    let e = EnumChannelListenerId::new(ActionBinding::Selection, 2);
    assert_eq!(e.variant(), ActionBinding::Selection);
    assert_eq!(e.index(), 2);
}

#[test]
fn channel_delivers_to_every_listener_in_order() {
    let mut c = Channel::<u32>::default();
    let a = c.bind_listener(4);
    let b = c.bind_listener(2);
    assert_eq!(a.index(), 0);
    assert_eq!(b.index(), 1);
    assert_eq!(c.write(7), Ok(()));
    assert_eq!(c.write_iter(vec![8]), Ok(()));
    assert_eq!(c.read(a), Some(7));
    assert_eq!(c.read(a), Some(8));
    assert_eq!(c.read(a), None);
    assert_eq!(c.read(b), Some(7));
    assert_eq!(c.write(9), Ok(()));
    assert_eq!(c.read(b), Some(8));
    assert_eq!(c.read(b), Some(9));
    assert_eq!(c.read(b), None);
}

#[test]
fn a_listener_bound_late_sees_only_later_events() {
    let mut c = Channel::<u32>::default();
    let a = c.bind_listener(2);
    c.write(1).unwrap();
    let b = c.bind_listener(2);
    c.write(2).unwrap();
    assert_eq!(c.read(b), Some(2));
    assert_eq!(c.read(a), Some(1));
    assert_eq!(c.read(a), Some(2));
}

#[test]
fn bindings_keep_the_last_action_given() {
    let mut b = BindingMap::new();
    assert_eq!(b.insert(Binding::Key(22, None), ActionBinding::CameraUp), None);
    assert_eq!(b.insert(Binding::Key(22, None), ActionBinding::CameraDown), Some(ActionBinding::CameraUp));
    assert_eq!(b.get(&Binding::Key(22, None)), Some(ActionBinding::CameraDown));
    assert_eq!(b.get(&Binding::Key(22, Some(1))), None);
    assert_eq!(b.get(&Binding::Mouse(MouseButton::Left, None)), None);
}

fn bound_state() -> InputState {
    let mut s = InputState::default();
    s.bindings.insert(Binding::Key(22, None), ActionBinding::CameraUp);
    s.bindings.insert(Binding::Mouse(MouseButton::Left, None), ActionBinding::Selection);
    s
}

#[test]
fn handle_action_writes_the_bound_action() {
    let mut s = bound_state();
    let mut c = Channel::<InputActionEvent>::default();
    let l = c.bind_listener(8);
    assert_eq!(InputManager::handle_action(WindowInput::Key { code: Some(22), pressed: true }, &mut s, &mut c), Ok(true));
    assert!(s.is_action_down(ActionBinding::CameraUp));
    assert_eq!(c.read(l), Some(InputActionEvent::Pressed(ActionBinding::CameraUp)));
    // A bound button sends its action without recording it as down.
    assert_eq!(InputManager::handle_action(WindowInput::Mouse { button: MouseButton::Left, pressed: true }, &mut s, &mut c), Ok(true));
    assert!(!s.is_action_down(ActionBinding::Selection));
    assert_eq!(c.read(l), Some(InputActionEvent::Pressed(ActionBinding::Selection)));
    assert_eq!(InputManager::handle_action(WindowInput::Key { code: Some(23), pressed: true }, &mut s, &mut c), Ok(false));
    assert_eq!(
        InputManager::handle_action(WindowInput::Key { code: None, pressed: true }, &mut s, &mut c),
        Err(InputError::MissingKeyCode)
    );
    assert_eq!(InputManager::handle_action(WindowInput::Other, &mut s, &mut c), Ok(false));
    assert_eq!(c.read(l), None);
}

#[test]
fn on_key_reports_changes_only() {
    let mut s = bound_state();
    let mut c = Channel::<InputActionEvent>::default();
    let l = c.bind_listener(8);
    assert!(InputManager::on_key(&mut s, Some(22), true, &mut c));
    assert!(!InputManager::on_key(&mut s, Some(22), true, &mut c));
    assert!(s.is_key_down(22));
    assert_eq!(c.read(l), Some(InputActionEvent::Pressed(ActionBinding::CameraUp)));
    assert_eq!(c.read(l), None);
    assert!(InputManager::on_key(&mut s, Some(22), false, &mut c));
    assert_eq!(c.read(l), Some(InputActionEvent::Released(ActionBinding::CameraUp)));
    assert!(!InputManager::on_key(&mut s, None, true, &mut c));
    s.ignore_keyboard = true;
    assert!(!InputManager::on_key(&mut s, Some(22), true, &mut c));
    assert!(!s.is_key_down(22));
}

#[test]
fn on_mouse_reports_changes_only() {
    let mut s = bound_state();
    let mut c = Channel::<InputActionEvent>::default();
    let l = c.bind_listener(8);
    assert!(InputManager::on_mouse(&mut s, MouseButton::Left, true, &mut c));
    assert!(!InputManager::on_mouse(&mut s, MouseButton::Left, true, &mut c));
    assert_eq!(c.read(l), Some(InputActionEvent::Pressed(ActionBinding::Selection)));
    assert_eq!(c.read(l), None);
    s.ignore_mouse = true;
    assert!(!InputManager::on_mouse(&mut s, MouseButton::Right, true, &mut c));
    assert!(!s.mouse_state[2]);
}
