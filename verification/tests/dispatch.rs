use dalgi::{
    ActionState, AdvanceFrame, ButtonChange, ButtonUpdateSource, InputChange, InputDesc, InputMap,
    Key, KeyDesc, NotificationUpdateSource, Signal,
};

fn key_change(key: Key, change: ButtonChange) -> InputChange {
    InputChange::Key(KeyDesc::new(key), change)
}

#[test]
fn end_to_end_press_advance_release() {
    let jump: usize = 0;
    let mut map: InputMap<usize, usize> = InputMap::new();
    map.add_button(jump, ButtonUpdateSource::Key(KeyDesc::new(Key::Up)));
    let mut state = ActionState::new(1, 0);

    map.apply(&key_change(Key::Up, ButtonChange::Pressed), &mut state);
    let v = state.button(jump);
    assert_eq!((v.pressed, v.held, v.released, v.repeats), (true, true, false, 0));

    state.advance_frame();
    let v = state.button(jump);
    assert_eq!((v.pressed, v.held, v.released, v.repeats), (false, true, false, 0));

    map.apply(&key_change(Key::Up, ButtonChange::Released), &mut state);
    let v = state.button(jump);
    assert_eq!((v.pressed, v.held, v.released, v.repeats), (false, false, true, 0));
}

#[test]
fn apply_change_dispatches_one_change() {
    let mut map: InputMap<usize, usize> = InputMap::new();
    map.add_button(0, ButtonUpdateSource::Key(KeyDesc::new(Key::Four)));
    let mut state = ActionState::new(1, 0);

    map.apply_change(key_change(Key::Four, ButtonChange::Pressed), &mut state);
    assert_eq!(state.button(0).pressed, true);
    map.apply_change(key_change(Key::Four, ButtonChange::Released), &mut state);
    assert_eq!(state.button(0).released, true);
    assert_eq!(state.button(0).held, false);
}

#[test]
fn press_and_release_in_one_frame_sets_both_edges() {
    let mut map: InputMap<usize, usize> = InputMap::new();
    map.add_button(0, ButtonUpdateSource::Key(KeyDesc::new(Key::Space)));
    let mut state = ActionState::new(1, 0);

    let changes = vec![
        key_change(Key::Space, ButtonChange::Pressed),
        key_change(Key::Space, ButtonChange::Released),
    ];
    map.apply_changes(&changes, &mut state);
    let v = state.button(0);
    assert_eq!(v.pressed, true);
    assert_eq!(v.released, true);
    assert_eq!(v.held, false);
}

#[test]
fn one_descriptor_updates_every_bound_action() {
    let mut map: InputMap<usize, usize> = InputMap::new();
    map.add_button(0, ButtonUpdateSource::Key(KeyDesc::new(Key::Left)));
    map.add_button(1, ButtonUpdateSource::Key(KeyDesc::new(Key::Left)));
    let mut state = ActionState::new(2, 0);

    map.apply(&key_change(Key::Left, ButtonChange::Pressed), &mut state);
    assert_eq!(state.button(0).pressed, true);
    assert_eq!(state.button(0).held, true);
    assert_eq!(state.button(1).pressed, true);
    assert_eq!(state.button(1).held, true);
}

#[test]
fn removed_descriptor_produces_no_mutation() {
    let mut map: InputMap<usize, usize> = InputMap::new();
    map.add_button(0, ButtonUpdateSource::Key(KeyDesc::new(Key::Right)));
    map.remove(InputDesc::Key(KeyDesc::new(Key::Right)));
    let mut state = ActionState::new(1, 0);

    map.apply(&key_change(Key::Right, ButtonChange::Pressed), &mut state);
    assert_eq!(state.button(0), dalgi::ButtonValue::new());
}

#[test]
fn unmapped_descriptor_is_a_no_op() {
    let map: InputMap<usize, usize> = InputMap::new();
    let mut state = ActionState::new(1, 1);
    map.apply(&key_change(Key::Return, ButtonChange::Pressed), &mut state);
    assert_eq!(state.button(0), dalgi::ButtonValue::new());
    assert_eq!(state.signal(0), false);
}

#[test]
fn repeats_count_and_touch_nothing_else() {
    let mut map: InputMap<usize, usize> = InputMap::new();
    map.add_button(0, ButtonUpdateSource::Key(KeyDesc::new(Key::Down)));
    let mut state = ActionState::new(1, 0);

    map.apply(&key_change(Key::Down, ButtonChange::Pressed), &mut state);
    state.advance_frame();
    map.apply(&key_change(Key::Down, ButtonChange::Repeated), &mut state);
    map.apply(&key_change(Key::Down, ButtonChange::Repeated), &mut state);
    let v = state.button(0);
    assert_eq!(v.repeats, 2);
    assert_eq!(v.pressed, false);
    assert_eq!(v.held, true);
    assert_eq!(v.released, false);
}

#[test]
fn duplicate_binding_mutates_twice() {
    let mut map: InputMap<usize, usize> = InputMap::new();
    map.add_button(0, ButtonUpdateSource::Key(KeyDesc::new(Key::One)));
    map.add_button(0, ButtonUpdateSource::Key(KeyDesc::new(Key::One)));
    let mut state = ActionState::new(1, 0);

    map.apply(&key_change(Key::One, ButtonChange::Repeated), &mut state);
    assert_eq!(state.button(0).repeats, 2);
}

#[test]
fn repeats_saturate_at_the_counter_maximum() {
    let mut map: InputMap<usize, usize> = InputMap::new();
    map.add_button(0, ButtonUpdateSource::Key(KeyDesc::new(Key::Two)));
    let mut state = ActionState::new(1, 0);

    for _ in 0..300 {
        map.apply(&key_change(Key::Two, ButtonChange::Repeated), &mut state);
    }
    assert_eq!(state.button(0).repeats, 255);
}

#[test]
fn signal_change_raises_the_flag() {
    let mut map: InputMap<usize, usize> = InputMap::new();
    map.add_notification(0, NotificationUpdateSource::Notification(dalgi::Notification::QuitRequest));
    let mut state = ActionState::new(0, 1);

    map.apply(&InputChange::Signal(Signal::QuitRequest), &mut state);
    assert_eq!(state.signal(0), true);

    state.advance_frame();
    assert_eq!(state.signal(0), false);
}

#[test]
fn key_press_routed_to_signal_action_sets_it_once() {
    let mut map: InputMap<usize, usize> = InputMap::new();
    map.add_notification(0, NotificationUpdateSource::Key(KeyDesc::new(Key::Return)));
    let mut state = ActionState::new(0, 1);

    map.apply(&key_change(Key::Return, ButtonChange::Released), &mut state);
    assert_eq!(state.signal(0), false);
    map.apply(&key_change(Key::Return, ButtonChange::Repeated), &mut state);
    assert_eq!(state.signal(0), false);
    map.apply(&key_change(Key::Return, ButtonChange::Pressed), &mut state);
    assert_eq!(state.signal(0), true);
}

#[test]
fn scancode_and_keycode_descriptors_are_distinct() {
    let mut map: InputMap<usize, usize> = InputMap::new();
    map.add_button(0, ButtonUpdateSource::Key(KeyDesc::new(Key::Up).scancode()));
    let mut state = ActionState::new(1, 0);

    map.apply(&key_change(Key::Up, ButtonChange::Pressed), &mut state);
    assert_eq!(state.button(0).pressed, false);

    map.apply(
        &InputChange::Key(KeyDesc::new(Key::Up).scancode(), ButtonChange::Pressed),
        &mut state,
    );
    assert_eq!(state.button(0).pressed, true);
}

#[test]
fn changes_apply_in_producer_order() {
    let mut map: InputMap<usize, usize> = InputMap::new();
    map.add_button(0, ButtonUpdateSource::Key(KeyDesc::new(Key::Three)));
    let mut state = ActionState::new(1, 0);

    let changes = vec![
        key_change(Key::Three, ButtonChange::Released),
        key_change(Key::Three, ButtonChange::Pressed),
    ];
    map.apply_changes(&changes, &mut state);
    let v = state.button(0);
    assert_eq!(v.held, true);
    assert_eq!(v.pressed, true);
    assert_eq!(v.released, true);
}
