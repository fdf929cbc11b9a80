use dalgi::{ActionState, AdvanceFrame, ButtonValue, InputState};

#[test]
fn new_button_value_is_zeroed() {
    let v = ButtonValue::new();
    assert_eq!(v.pressed, false);
    assert_eq!(v.held, false);
    assert_eq!(v.released, false);
    assert_eq!(v.repeats, 0);
}

#[test]
fn advance_frame_clears_edges_and_keeps_held() {
    let mut v = ButtonValue::new();
    v.pressed = true;
    v.held = true;
    v.released = true;
    v.repeats = 3;
    v.advance_frame();
    assert_eq!(v.pressed, false);
    assert_eq!(v.released, false);
    assert_eq!(v.repeats, 0);
    assert_eq!(v.held, true);

    let mut w = ButtonValue::new();
    w.released = true;
    w.advance_frame();
    assert_eq!(w.held, false);
    assert_eq!(w.pressed, false);
    assert_eq!(w.released, false);
}

#[test]
fn advance_frame_clears_bool_signal() {
    let mut s = true;
    s.advance_frame();
    assert_eq!(s, false);
}

#[test]
fn action_state_starts_zeroed() {
    let mut state = ActionState::new(3, 2);
    assert_eq!(state.num_buttons(), 3);
    assert_eq!(state.num_signals(), 2);
    for i in 0..3 {
        assert_eq!(state.button(i), ButtonValue::new());
    }
    for j in 0..2 {
        assert_eq!(state.signal(j), false);
    }
    state.advance_frame();
    for i in 0..3 {
        assert_eq!(state.button(i), ButtonValue::new());
    }
}

#[test]
fn action_state_advance_frame_touches_every_slot() {
    let mut state = ActionState::new(2, 2);
    {
        let b0 = state.get_button(&0);
        b0.pressed = true;
        b0.held = true;
        let b1 = state.get_button(&1);
        b1.released = true;
        b1.repeats = 7;
        *state.get_signal(&0) = true;
        *state.get_signal(&1) = true;
    }
    state.advance_frame();
    assert_eq!(state.button(0).pressed, false);
    assert_eq!(state.button(0).held, true);
    assert_eq!(state.button(1).released, false);
    assert_eq!(state.button(1).repeats, 0);
    assert_eq!(state.signal(0), false);
    assert_eq!(state.signal(1), false);
}
